//! Message types: the request and response schemas and their invariants.
//!
//! Confidence fields are fixed-point integers in millionths (see
//! [`crate::confidence::SCALE`]); message and conversation identifiers are
//! UUIDs carried as their 128-bit value; timestamps are milliseconds since
//! the Unix epoch.

use vstd::prelude::*;

use crate::confidence::SCALE;
use crate::error::RefusalCode;
use crate::json::JsonValue;
use crate::time::{now_millis, valid_timestamp, TS_LIMIT};

verus! {

/// The protocol version this crate speaks.
pub open spec fn spec_protocol_version() -> Seq<char> {
    "0.1"@
}

/// Authentication method for the sender identity.
#[derive(Clone, Copy, Debug, PartialEq, Eq, Structural)]
pub enum AuthMethod {
    Token,
    Certificate,
    ApiKey,
    NoAuth,
}

/// The wire name of an authentication method: lowercase snake case.
pub open spec fn spec_auth_method_str(m: AuthMethod) -> Seq<char> {
    match m {
        AuthMethod::Token => "token"@,
        AuthMethod::Certificate => "certificate"@,
        AuthMethod::ApiKey => "api_key"@,
        AuthMethod::NoAuth => "none"@,
    }
}

/// Sender identity object.
#[derive(Debug, PartialEq, Eq)]
pub struct Sender {
    pub id: String,
    pub auth_method: AuthMethod,
}

/// The model of a [`Sender`].
pub struct SenderV {
    pub id: Seq<char>,
    pub auth_method: AuthMethod,
}

impl View for Sender {
    type V = SenderV;

    open spec fn view(&self) -> SenderV {
        SenderV { id: self.id@, auth_method: self.auth_method }
    }
}

impl Clone for Sender {
    /// A copy with the same model.
    fn clone(&self) -> (r: Sender)
        ensures
            r@ == self@,
    {
        Sender { id: self.id.clone(), auth_method: self.auth_method }
    }
}

/// Context type.
#[derive(Clone, Copy, Debug, PartialEq, Eq, Structural)]
pub enum ContextType {
    Transcript,
    Summary,
    Structured,
}

/// The wire name of a context type: lowercase snake case.
pub open spec fn spec_context_type_str(t: ContextType) -> Seq<char> {
    match t {
        ContextType::Transcript => "transcript"@,
        ContextType::Summary => "summary"@,
        ContextType::Structured => "structured"@,
    }
}

/// Context object carrying conversation history or state, with its semantic
/// hash.
#[derive(Debug, PartialEq, Eq)]
pub struct Context {
    pub context_type: ContextType,
    pub content: String,
    pub semantic_hash: String,
}

/// The model of a [`Context`].
pub struct ContextV {
    pub context_type: ContextType,
    pub content: Seq<char>,
    pub semantic_hash: Seq<char>,
}

impl View for Context {
    type V = ContextV;

    open spec fn view(&self) -> ContextV {
        ContextV {
            context_type: self.context_type,
            content: self.content@,
            semantic_hash: self.semantic_hash@,
        }
    }
}

impl Clone for Context {
    /// A copy with the same model.
    fn clone(&self) -> (r: Context)
        ensures
            r@ == self@,
    {
        Context {
            context_type: self.context_type,
            content: self.content.clone(),
            semantic_hash: self.semantic_hash.clone(),
        }
    }
}

/// Client-specified constraints.  `max_cost` is in millionths of a cost
/// unit.
#[derive(Debug, PartialEq, Eq)]
pub struct Constraints {
    pub max_cost: Option<u64>,
    pub privacy: Option<String>,
    pub timeout_ms: Option<u64>,
}

/// The model of a [`Constraints`].
pub struct ConstraintsV {
    pub max_cost: Option<u64>,
    pub privacy: Option<Seq<char>>,
    pub timeout_ms: Option<u64>,
}

impl View for Constraints {
    type V = ConstraintsV;

    open spec fn view(&self) -> ConstraintsV {
        ConstraintsV {
            max_cost: self.max_cost,
            privacy: match self.privacy {
                Some(p) => Some(p@),
                None => None,
            },
            timeout_ms: self.timeout_ms,
        }
    }
}

impl Clone for Constraints {
    /// A copy with the same model.
    fn clone(&self) -> (r: Constraints)
        ensures
            r@ == self@,
    {
        Constraints {
            max_cost: self.max_cost,
            privacy: match &self.privacy {
                Some(p) => Some(p.clone()),
                None => None,
            },
            timeout_ms: self.timeout_ms,
        }
    }
}

/// Clone a vector of strings, keeping each element.
pub fn clone_strings(v: &Vec<String>) -> (r: Vec<String>)
    ensures
        r@ == v@,
{
    let mut out: Vec<String> = Vec::new();
    let mut i: usize = 0;
    while i < v.len()
        invariant
            0 <= i <= v@.len(),
            out@.len() == i,
            forall|j: int| 0 <= j < i ==> out@[j] == v@[j],
        decreases v@.len() - i,
    {
        out.push(v[i].clone());
        i += 1;
    }
    proof {
        assert(out@ =~= v@);
    }
    out
}

/// Server capability definition.  `cost_units` is in millionths of a cost
/// unit.
#[derive(Debug, PartialEq, Eq)]
pub struct Capability {
    pub id: String,
    pub description: String,
    pub inputs: Vec<String>,
    pub privacy_level: String,
    pub cost_units: u64,
}

/// The model of a [`Capability`].
pub struct CapabilityV {
    pub id: Seq<char>,
    pub description: Seq<char>,
    pub inputs: Seq<Seq<char>>,
    pub privacy_level: Seq<char>,
    pub cost_units: u64,
}

impl View for Capability {
    type V = CapabilityV;

    open spec fn view(&self) -> CapabilityV {
        CapabilityV {
            id: self.id@,
            description: self.description@,
            inputs: self.inputs.deep_view(),
            privacy_level: self.privacy_level@,
            cost_units: self.cost_units,
        }
    }
}

impl Clone for Capability {
    /// A copy with the same model.
    fn clone(&self) -> (r: Capability)
        ensures
            r@ == self@,
    {
        let r = Capability {
            id: self.id.clone(),
            description: self.description.clone(),
            inputs: clone_strings(&self.inputs),
            privacy_level: self.privacy_level.clone(),
            cost_units: self.cost_units,
        };
        proof {
            assert(r.inputs.deep_view() =~= self.inputs.deep_view());
        }
        r
    }
}

/// The models of a vector of capabilities.
pub open spec fn capabilities_view(s: Seq<Capability>) -> Seq<CapabilityV> {
    s.map_values(|c: Capability| c@)
}

/// The server's interpretation of a client intent.
#[derive(Debug, PartialEq, Eq)]
pub struct Interpretation {
    pub text: String,
    pub confidence: u64,
}

/// The model of an [`Interpretation`].
pub struct InterpretationV {
    pub text: Seq<char>,
    pub confidence: u64,
}

impl View for Interpretation {
    type V = InterpretationV;

    open spec fn view(&self) -> InterpretationV {
        InterpretationV { text: self.text@, confidence: self.confidence }
    }
}

impl Clone for Interpretation {
    /// A copy with the same model.
    fn clone(&self) -> (r: Interpretation)
        ensures
            r@ == self@,
    {
        Interpretation { text: self.text.clone(), confidence: self.confidence }
    }
}

/// Action types the server can take.
#[derive(Clone, Copy, Debug, PartialEq, Eq, Structural)]
pub enum Action {
    Execute,
    Clarify,
    Propose,
    Refuse,
}

/// The wire name of an action: uppercase.
pub open spec fn spec_action_str(a: Action) -> Seq<char> {
    match a {
        Action::Execute => "EXECUTE"@,
        Action::Clarify => "CLARIFY"@,
        Action::Propose => "PROPOSE"@,
        Action::Refuse => "REFUSE"@,
    }
}

impl Action {
    /// The wire name of this action, in uppercase.
    pub fn action_str(&self) -> (r: String)
        ensures
            r@ == spec_action_str(*self),
    {
        match self {
            Action::Execute => String::from_str("EXECUTE"),
            Action::Clarify => String::from_str("CLARIFY"),
            Action::Propose => String::from_str("PROPOSE"),
            Action::Refuse => String::from_str("REFUSE"),
        }
    }
}

/// Per-action payload.  Exactly the fields of the chosen action are set:
/// `result` for EXECUTE, `questions` for CLARIFY, `reason_code` and `reason`
/// for REFUSE.
#[derive(Debug)]
pub struct ActionMetadata {
    /// Result data if the action is EXECUTE.
    pub result: Option<JsonValue>,
    /// Clarifying questions if the action is CLARIFY.
    pub questions: Option<Vec<String>>,
    /// Reason code if the action is REFUSE.
    pub reason_code: Option<RefusalCode>,
    /// Human-readable reason if the action is REFUSE.
    pub reason: Option<String>,
}

/// The model of an [`ActionMetadata`].
pub struct ActionMetadataV {
    pub result: Option<crate::json::JsonV>,
    pub questions: Option<Seq<Seq<char>>>,
    pub reason_code: Option<RefusalCode>,
    pub reason: Option<Seq<char>>,
}

impl View for ActionMetadata {
    type V = ActionMetadataV;

    open spec fn view(&self) -> ActionMetadataV {
        ActionMetadataV {
            result: match self.result {
                Some(v) => Some(v@),
                None => None,
            },
            questions: match self.questions {
                Some(qs) => Some(qs.deep_view()),
                None => None,
            },
            reason_code: self.reason_code,
            reason: match self.reason {
                Some(t) => Some(t@),
                None => None,
            },
        }
    }
}

impl Clone for ActionMetadata {
    /// A copy with the same model.
    fn clone(&self) -> (r: ActionMetadata)
        ensures
            r@ == self@,
    {
        let r = ActionMetadata {
            result: match &self.result {
                Some(v) => Some(v.clone()),
                None => None,
            },
            questions: match &self.questions {
                Some(qs) => Some(clone_strings(qs)),
                None => None,
            },
            reason_code: self.reason_code,
            reason: match &self.reason {
                Some(t) => Some(t.clone()),
                None => None,
            },
        };
        proof {
            if self.questions is Some {
                assert(r.questions->Some_0.deep_view() =~= self.questions->Some_0.deep_view());
            }
        }
        r
    }
}

impl ActionMetadata {
    /// Metadata with no field set.
    pub fn empty() -> (r: ActionMetadata)
        ensures
            r.result is None,
            r.questions is None,
            r.reason_code is None,
            r.reason is None,
    {
        ActionMetadata { result: None, questions: None, reason_code: None, reason: None }
    }
}

/// An alternative interpretation offered on PROPOSE.  `estimated_cost` is in
/// millionths of a cost unit.
#[derive(Debug, PartialEq)]
pub struct Alternative {
    pub interpretation: String,
    pub confidence: u64,
    pub estimated_cost: Option<u64>,
    pub capability_id: String,
}

/// The model of an [`Alternative`].
pub struct AlternativeV {
    pub interpretation: Seq<char>,
    pub confidence: u64,
    pub estimated_cost: Option<u64>,
    pub capability_id: Seq<char>,
}

impl View for Alternative {
    type V = AlternativeV;

    open spec fn view(&self) -> AlternativeV {
        AlternativeV {
            interpretation: self.interpretation@,
            confidence: self.confidence,
            estimated_cost: self.estimated_cost,
            capability_id: self.capability_id@,
        }
    }
}

impl Clone for Alternative {
    /// A copy with the same model.
    fn clone(&self) -> (r: Alternative)
        ensures
            r@ == self@,
    {
        Alternative {
            interpretation: self.interpretation.clone(),
            confidence: self.confidence,
            estimated_cost: self.estimated_cost,
            capability_id: self.capability_id.clone(),
        }
    }
}

/// The models of a vector of alternatives.
pub open spec fn alternatives_view(alts: Seq<Alternative>) -> Seq<AlternativeV> {
    alts.map_values(|a: Alternative| a@)
}

/// Clone a vector of alternatives, keeping each model.
pub fn clone_alternatives(v: &Vec<Alternative>) -> (r: Vec<Alternative>)
    ensures
        alternatives_view(r@) == alternatives_view(v@),
{
    let mut out: Vec<Alternative> = Vec::new();
    let mut i: usize = 0;
    while i < v.len()
        invariant
            0 <= i <= v@.len(),
            out@.len() == i,
            forall|j: int| 0 <= j < i ==> (#[trigger] out@[j])@ == v@[j]@,
        decreases v@.len() - i,
    {
        out.push(v[i].clone());
        i += 1;
    }
    proof {
        assert(alternatives_view(out@) =~= alternatives_view(v@));
    }
    out
}

/// Responder identity (the server).
#[derive(Debug, PartialEq, Eq)]
pub struct Responder {
    pub id: String,
    pub capabilities: Vec<String>,
}

/// The model of a [`Responder`].
pub struct ResponderV {
    pub id: Seq<char>,
    pub capabilities: Seq<Seq<char>>,
}

impl View for Responder {
    type V = ResponderV;

    open spec fn view(&self) -> ResponderV {
        ResponderV { id: self.id@, capabilities: self.capabilities.deep_view() }
    }
}

impl Clone for Responder {
    /// A copy with the same model.
    fn clone(&self) -> (r: Responder)
        ensures
            r@ == self@,
    {
        let r = Responder { id: self.id.clone(), capabilities: clone_strings(&self.capabilities) };
        proof {
            assert(r.capabilities.deep_view() =~= self.capabilities.deep_view());
        }
        r
    }
}

/// Base message fields common to requests and responses.
#[derive(Clone, Copy, Debug, PartialEq, Eq)]
pub struct Message {
    pub message_id: u128,
    pub conversation_id: u128,
    pub timestamp: i64,
}

/// Client request message.
#[derive(Debug, PartialEq)]
pub struct Request {
    pub protocol_version: String,
    pub message_id: u128,
    pub in_response_to: Option<u128>,
    pub conversation_id: u128,
    pub timestamp: i64,
    pub sender: Sender,
    pub intent: String,
    pub confidence: u64,
    pub context: Context,
    pub constraints: Option<Constraints>,
    pub signature: Option<String>,
}

/// The model of a [`Request`].
pub struct RequestV {
    pub protocol_version: Seq<char>,
    pub message_id: u128,
    pub in_response_to: Option<u128>,
    pub conversation_id: u128,
    pub timestamp: i64,
    pub sender: SenderV,
    pub intent: Seq<char>,
    pub confidence: u64,
    pub context: ContextV,
    pub constraints: Option<ConstraintsV>,
    pub signature: Option<Seq<char>>,
}

impl View for Request {
    type V = RequestV;

    open spec fn view(&self) -> RequestV {
        RequestV {
            protocol_version: self.protocol_version@,
            message_id: self.message_id,
            in_response_to: self.in_response_to,
            conversation_id: self.conversation_id,
            timestamp: self.timestamp,
            sender: self.sender@,
            intent: self.intent@,
            confidence: self.confidence,
            context: self.context@,
            constraints: match self.constraints {
                Some(c) => Some(c@),
                None => None,
            },
            signature: match self.signature {
                Some(s) => Some(s@),
                None => None,
            },
        }
    }
}

impl Clone for Request {
    /// A copy with the same model.
    fn clone(&self) -> (r: Request)
        ensures
            r@ == self@,
    {
        Request {
            protocol_version: self.protocol_version.clone(),
            message_id: self.message_id,
            in_response_to: self.in_response_to,
            conversation_id: self.conversation_id,
            timestamp: self.timestamp,
            sender: self.sender.clone(),
            intent: self.intent.clone(),
            confidence: self.confidence,
            context: self.context.clone(),
            constraints: match &self.constraints {
                Some(c) => Some(c.clone()),
                None => None,
            },
            signature: match &self.signature {
                Some(s) => Some(s.clone()),
                None => None,
            },
        }
    }
}

/// A well-formed request: confidence in the unit interval, timestamp in the
/// protocol range.
pub open spec fn valid_request(r: Request) -> bool {
    &&& r.confidence <= SCALE
    &&& valid_timestamp(r.timestamp)
}

/// Server response message.
#[derive(Debug)]
pub struct Response {
    pub message_id: u128,
    pub in_response_to: u128,
    pub conversation_id: u128,
    pub timestamp: i64,
    pub responder: Responder,
    pub interpretation: Interpretation,
    pub action: Action,
    pub action_metadata: Option<ActionMetadata>,
    pub alternatives: Option<Vec<Alternative>>,
    pub confidence: u64,
}

/// The model of a [`Response`].
pub struct ResponseV {
    pub message_id: u128,
    pub in_response_to: u128,
    pub conversation_id: u128,
    pub timestamp: i64,
    pub responder: ResponderV,
    pub interpretation: InterpretationV,
    pub action: Action,
    pub action_metadata: Option<ActionMetadataV>,
    pub alternatives: Option<Seq<AlternativeV>>,
    pub confidence: u64,
}

impl View for Response {
    type V = ResponseV;

    open spec fn view(&self) -> ResponseV {
        ResponseV {
            message_id: self.message_id,
            in_response_to: self.in_response_to,
            conversation_id: self.conversation_id,
            timestamp: self.timestamp,
            responder: self.responder@,
            interpretation: self.interpretation@,
            action: self.action,
            action_metadata: match self.action_metadata {
                Some(m) => Some(m@),
                None => None,
            },
            alternatives: match self.alternatives {
                Some(alts) => Some(alternatives_view(alts@)),
                None => None,
            },
            confidence: self.confidence,
        }
    }
}

impl Clone for Response {
    /// A copy with the same model.
    fn clone(&self) -> (r: Response)
        ensures
            r@ == self@,
    {
        Response {
            message_id: self.message_id,
            in_response_to: self.in_response_to,
            conversation_id: self.conversation_id,
            timestamp: self.timestamp,
            responder: self.responder.clone(),
            interpretation: self.interpretation.clone(),
            action: self.action,
            action_metadata: match &self.action_metadata {
                Some(m) => Some(m.clone()),
                None => None,
            },
            alternatives: match &self.alternatives {
                Some(alts) => Some(clone_alternatives(alts)),
                None => None,
            },
            confidence: self.confidence,
        }
    }
}

/// A well-formed response: every confidence in the unit interval, timestamp
/// in the protocol range.
pub open spec fn valid_response(r: Response) -> bool {
    &&& r.confidence <= SCALE
    &&& r.interpretation.confidence <= SCALE
    &&& valid_timestamp(r.timestamp)
    &&& r.alternatives matches Some(alts) ==> forall|i: int|
        0 <= i < alts@.len() ==> #[trigger] alts@[i].confidence <= SCALE
}

/// The wire invariants that relate a response's action to its payload:
/// EXECUTE carries a result and nothing else; CLARIFY carries questions;
/// REFUSE carries a reason code and reason; alternatives are present and
/// non-empty exactly on PROPOSE, and absent on every other action.
pub open spec fn action_payload_ok(r: Response) -> bool {
    &&& r.action == Action::Execute ==> (r.action_metadata matches Some(m) && m.result is Some
        && m.questions is None && m.reason_code is None && m.reason is None)
    &&& r.action == Action::Clarify ==> (r.action_metadata matches Some(m) && m.result is None
        && m.questions is Some && m.reason_code is None && m.reason is None)
    &&& r.action == Action::Refuse ==> (r.action_metadata matches Some(m) && m.result is None
        && m.questions is None && m.reason_code is Some && m.reason is Some)
    &&& r.action == Action::Propose <==> (r.alternatives matches Some(alts) && alts@.len() > 0)
    &&& r.action != Action::Propose ==> r.alternatives is None
}

/// Relies on `uuid::Uuid::new_v4`: a fresh random version-4 UUID, as its
/// 128-bit value.  Nothing is promised of the value.
#[verifier::external_body]
pub fn new_uuid() -> u128 {
    uuid::Uuid::new_v4().as_u128()
}

/// The current wall clock, clamped into the protocol's timestamp range.
fn now_in_range() -> (r: i64)
    ensures
        valid_timestamp(r),
{
    let now = now_millis();
    if now < 0 {
        0
    } else if now >= TS_LIMIT {
        TS_LIMIT - 1
    } else {
        now
    }
}

impl Request {
    /// Create a new initial request: fresh message and conversation
    /// identifiers, no `in_response_to`, current timestamp, no constraints
    /// and no signature.
    pub fn new(sender: Sender, intent: String, confidence: u64, context: Context) -> (r: Request)
        requires
            confidence <= SCALE,
        ensures
            r.protocol_version@ == spec_protocol_version(),
            r.in_response_to is None,
            r.sender == sender,
            r.intent == intent,
            r.confidence == confidence,
            r.context == context,
            r.constraints is None,
            r.signature is None,
            valid_request(r),
    {
        Request {
            protocol_version: String::from_str("0.1"),
            message_id: new_uuid(),
            in_response_to: None,
            conversation_id: new_uuid(),
            timestamp: now_in_range(),
            sender,
            intent,
            confidence,
            context,
            constraints: None,
            signature: None,
        }
    }

    /// Create a follow-up request answering `previous`: `in_response_to` is
    /// the previous response's message id and the conversation id is
    /// preserved.
    pub fn reply(
        previous: &Response,
        sender: Sender,
        intent: String,
        confidence: u64,
        context: Context,
    ) -> (r: Request)
        requires
            confidence <= SCALE,
        ensures
            r.protocol_version@ == spec_protocol_version(),
            r.in_response_to == Some(previous.message_id),
            r.conversation_id == previous.conversation_id,
            r.sender == sender,
            r.intent == intent,
            r.confidence == confidence,
            r.context == context,
            r.constraints is None,
            r.signature is None,
            valid_request(r),
    {
        Request {
            protocol_version: String::from_str("0.1"),
            message_id: new_uuid(),
            in_response_to: Some(previous.message_id),
            conversation_id: previous.conversation_id,
            timestamp: now_in_range(),
            sender,
            intent,
            confidence,
            context,
            constraints: None,
            signature: None,
        }
    }
}

impl Response {
    /// Create a response correlated to `request`: `in_response_to` is the
    /// request's message id and the conversation id is carried over.
    pub fn to_request(
        request: &Request,
        responder: Responder,
        interpretation: Interpretation,
        action: Action,
        confidence: u64,
    ) -> (r: Response)
        requires
            confidence <= SCALE,
            interpretation.confidence <= SCALE,
        ensures
            r.in_response_to == request.message_id,
            r.conversation_id == request.conversation_id,
            r.responder == responder,
            r.interpretation == interpretation,
            r.action == action,
            r.action_metadata is None,
            r.alternatives is None,
            r.confidence == confidence,
            valid_response(r),
    {
        Response {
            message_id: new_uuid(),
            in_response_to: request.message_id,
            conversation_id: request.conversation_id,
            timestamp: now_in_range(),
            responder,
            interpretation,
            action,
            action_metadata: None,
            alternatives: None,
            confidence,
        }
    }
}

} // verus!
