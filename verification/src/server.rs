//! The server state machine: validate, interpret, decide, act.
//!
//! One machine governs one conversation.  Processing a request walks the
//! automaton Received → Validating → Interpreting → Deciding and ends in
//! Done (EXECUTE or REFUSE) or Negotiating (CLARIFY or PROPOSE).  Capability
//! handlers run outside the machine: an EXECUTE decision is returned as a
//! demand for execution, and the handler's result is attached to the
//! response afterwards.

use vstd::prelude::*;

use crate::confidence::{
    compute_server_confidence, decide_action, spec_decide_action, spec_server_confidence, SCALE,
};
use crate::config::ServerConfig;
use crate::error::{RefusalCode, SinpError, SinpResult};
use crate::interpreter::{alt_ok, spec_top};
use crate::json::JsonValue;
use crate::message::{
    action_payload_ok, valid_response, Action, ActionMetadata, Alternative, AlternativeV,
    Interpretation, Request, Responder, Response,
};
use crate::registry::{find_id, lemma_find_id, CapabilityRegistry};
use crate::security::{check_replay_at, within_replay_window};
use crate::state::{ServerEvent, ServerState};

verus! {

/// The target state of the server automaton for an event, before the
/// legality check.
pub open spec fn server_step_target(s: ServerState, e: ServerEvent) -> Option<ServerState> {
    match (s, e) {
        (ServerState::Received, ServerEvent::RequestReceived) => Some(ServerState::Validating),
        (ServerState::Validating, ServerEvent::ValidationPassed) => Some(ServerState::Interpreting),
        (ServerState::Validating, ServerEvent::ValidationFailed(_)) => Some(ServerState::Failed),
        (ServerState::Interpreting, ServerEvent::InterpretationComplete { .. }) => Some(
            ServerState::Deciding,
        ),
        (ServerState::Deciding, ServerEvent::DecisionExecute) => Some(ServerState::Done),
        (ServerState::Deciding, ServerEvent::DecisionClarify) => Some(ServerState::Negotiating),
        (ServerState::Deciding, ServerEvent::DecisionPropose) => Some(ServerState::Negotiating),
        (ServerState::Deciding, ServerEvent::DecisionRefuse) => Some(ServerState::Done),
        (ServerState::Done, ServerEvent::ActionCompleted) => Some(ServerState::Done),
        (ServerState::Negotiating, ServerEvent::ClientResponded) => Some(ServerState::Received),
        (_, ServerEvent::Error(_)) => Some(ServerState::Failed),
        _ => None,
    }
}

/// The transition the server automaton takes for an event: the target
/// state, when moving there is legal.
pub open spec fn spec_server_transition(s: ServerState, e: ServerEvent) -> Option<ServerState> {
    match server_step_target(s, e) {
        Some(t) => if s.spec_can_transition_to(t) {
            Some(t)
        } else {
            None
        },
        None => None,
    }
}

/// Every transition the server automaton takes lies in the legal set.
pub proof fn lemma_server_transitions_legal(s: ServerState, e: ServerEvent)
    ensures
        spec_server_transition(s, e) matches Some(t) ==> s.spec_can_transition_to(t),
{
}

/// What processing a request produced: either a finished response, or a
/// response awaiting the named capability's execution result.
#[derive(Debug)]
pub enum ServerReply {
    /// The response is complete.
    Complete(Response),
    /// The response awaits the result of executing the capability; attach
    /// it with [`attach_result`].
    NeedsExecution { response: Response, capability_id: String },
}

/// The scores the registry's interpreter assigns to its capabilities for an
/// intent.
pub open spec fn spec_scores_of(reg: CapabilityRegistry, intent: Seq<char>) -> Seq<int> {
    reg.spec_interpreter().spec_result_scores(intent, reg.spec_capabilities())
}

/// The index of the capability the interpreter selects for an intent, if
/// the top score reaches the minimum.
pub open spec fn spec_selected(reg: CapabilityRegistry, intent: Seq<char>) -> Option<int> {
    let scores = spec_scores_of(reg, intent);
    if reg.spec_capabilities().len() == 0 {
        None
    } else {
        let top = spec_top(scores);
        if scores[top] >= reg.spec_interpreter().min_score as int {
            Some(top)
        } else {
            None
        }
    }
}

/// The server confidence for an intent: the top score composed with the
/// selected capability's reliability and full availability, or 0 when no
/// capability is selected.
pub open spec fn spec_phi_s(reg: CapabilityRegistry, intent: Seq<char>) -> int {
    match spec_selected(reg, intent) {
        Some(top) => spec_server_confidence(
            spec_scores_of(reg, intent)[top],
            reg.spec_reliabilities()[top] as int,
            SCALE as int,
            true,
        ),
        None => 0,
    }
}

/// Whether the interpreter offers any alternative for an intent: some
/// capability other than the top-ranked one scores at least the minimum.
pub open spec fn spec_has_alt(reg: CapabilityRegistry, intent: Seq<char>) -> bool {
    let scores = spec_scores_of(reg, intent);
    reg.spec_capabilities().len() > 0 && exists|j: int|
        0 <= j < scores.len() && j != spec_top(scores) && #[trigger] scores[j]
            >= reg.spec_interpreter().min_score as int
}

/// The action the server decides for a request: the decision calculus
/// applied to the server confidence, the client confidence, and whether a
/// better alternative exists.
pub open spec fn spec_action_for(
    reg: CapabilityRegistry,
    thresholds: crate::confidence::Thresholds,
    intent: Seq<char>,
    client_confidence: u64,
) -> Action {
    spec_decide_action(
        spec_phi_s(reg, intent),
        client_confidence as int,
        thresholds,
        spec_has_alt(reg, intent) && spec_phi_s(reg, intent) < thresholds.tau_exec as int,
        false,
        false,
    )
}

/// The refusal code a refusal of this request would carry.  The policy
/// hook always passes, so a refusal can only name a missing capability
/// (nothing matched) or, defensively, a malformed context.
pub open spec fn spec_refusal_for(reg: CapabilityRegistry, intent: Seq<char>) -> RefusalCode {
    if spec_selected(reg, intent) is None {
        RefusalCode::CapabilityMissing
    } else {
        RefusalCode::MalformedContext
    }
}

/// One proposed alternative is sound for the registry and intent: it names
/// a capability other than the selected one, carries that capability's
/// score as its confidence and its cost as the estimate, and that score
/// reaches the minimum.
pub open spec fn proposed_alt_ok(
    reg: CapabilityRegistry,
    intent: Seq<char>,
    a: AlternativeV,
) -> bool {
    let scores = spec_scores_of(reg, intent);
    exists|j: int|
        0 <= j < reg.spec_capabilities().len() && j != spec_top(scores)
            && a.capability_id == (#[trigger] reg.spec_capabilities()[j])@.id
            && a.confidence as int == scores[j] && scores[j]
            >= reg.spec_interpreter().min_score as int && a.estimated_cost == Some(
            reg.spec_capabilities()[j]@.cost_units,
        )
}

/// Server state machine managing a single conversation.
pub struct ServerStateMachine {
    state: ServerState,
    config: ServerConfig,
    conversation_id: Option<u128>,
    last_message_id: Option<u128>,
}

impl ServerStateMachine {
    /// The automaton state.
    pub closed spec fn spec_state(self) -> ServerState {
        self.state
    }

    /// The conversation this machine is bound to, once the first request
    /// arrived.
    pub closed spec fn spec_conversation_id(self) -> Option<u128> {
        self.conversation_id
    }

    /// The id of the last response sent, for continuity checks.
    pub closed spec fn spec_last_message_id(self) -> Option<u128> {
        self.last_message_id
    }

    /// The configuration.
    pub closed spec fn spec_config(self) -> ServerConfig {
        self.config
    }

    /// Well-formed: the configuration is.
    pub open spec fn wf(self) -> bool {
        self.spec_config().wf()
    }

    /// Create a new state machine.
    pub fn new(config: ServerConfig) -> (r: ServerStateMachine)
        requires
            config.wf(),
        ensures
            r.wf(),
            r.spec_state() == ServerState::Received,
            r.spec_conversation_id() is None,
            r.spec_last_message_id() is None,
            r.spec_config() == config,
    {
        ServerStateMachine {
            state: ServerState::Received,
            config,
            conversation_id: None,
            last_message_id: None,
        }
    }

    /// Get the current state.
    pub fn state(&self) -> (r: ServerState)
        ensures
            r == self.spec_state(),
    {
        self.state
    }

    /// Reset the machine for a new conversation.
    pub fn reset(&mut self)
        ensures
            final(self).spec_state() == ServerState::Received,
            final(self).spec_conversation_id() is None,
            final(self).spec_last_message_id() is None,
            final(self).spec_config() == old(self).spec_config(),
            old(self).wf() ==> final(self).wf(),
    {
        self.state = ServerState::Received;
        self.conversation_id = None;
        self.last_message_id = None;
    }

    /// Move the automaton along one event.  An event with no legal
    /// transition from the current state leaves the state unchanged and
    /// reports a protocol error.
    fn transition(&mut self, event: ServerEvent) -> (r: SinpResult<()>)
        ensures
            final(self).spec_config() == old(self).spec_config(),
            final(self).spec_conversation_id() == old(self).spec_conversation_id(),
            final(self).spec_last_message_id() == old(self).spec_last_message_id(),
            match spec_server_transition(old(self).spec_state(), event) {
                Some(t) => r is Ok && final(self).spec_state() == t,
                None => r matches Err(e) && e matches SinpError::Protocol(_)
                    && final(self).spec_state() == old(self).spec_state(),
            },
    {
        let target: Option<ServerState> = match (self.state, &event) {
            (ServerState::Received, ServerEvent::RequestReceived) => Some(ServerState::Validating),
            (ServerState::Validating, ServerEvent::ValidationPassed) => Some(
                ServerState::Interpreting,
            ),
            (ServerState::Validating, ServerEvent::ValidationFailed(_)) => Some(ServerState::Failed),
            (ServerState::Interpreting, ServerEvent::InterpretationComplete { .. }) => Some(
                ServerState::Deciding,
            ),
            (ServerState::Deciding, ServerEvent::DecisionExecute) => Some(ServerState::Done),
            (ServerState::Deciding, ServerEvent::DecisionClarify) => Some(ServerState::Negotiating),
            (ServerState::Deciding, ServerEvent::DecisionPropose) => Some(ServerState::Negotiating),
            (ServerState::Deciding, ServerEvent::DecisionRefuse) => Some(ServerState::Done),
            (ServerState::Done, ServerEvent::ActionCompleted) => Some(ServerState::Done),
            (ServerState::Negotiating, ServerEvent::ClientResponded) => Some(ServerState::Received),
            (_, ServerEvent::Error(_)) => Some(ServerState::Failed),
            _ => None,
        };
        match target {
            Some(t) => {
                if self.state.can_transition_to(t) {
                    self.state = t;
                    Ok(())
                } else {
                    Err(SinpError::Protocol(String::from_str("invalid state transition")))
                }
            },
            None => Err(
                SinpError::Protocol(String::from_str("no transition for event in current state")),
            ),
        }
    }

    /// Process one incoming request: check the replay window and the
    /// conversation continuity, interpret the intent, compose the server
    /// confidence, decide the action, and build the correlated response.
    /// An EXECUTE decision with a selected capability is returned as a
    /// demand for execution.  Validation failures leave the machine in
    /// `Failed` and report the error.
    pub fn process_request(
        &mut self,
        request: &Request,
        registry: &CapabilityRegistry,
        now_ms: i64,
    ) -> (r: SinpResult<ServerReply>)
        requires
            old(self).wf(),
            registry.wf(),
        ensures
            final(self).wf(),
            final(self).spec_config() == old(self).spec_config(),
            old(self).spec_state() != ServerState::Received ==> (r matches Err(e) && e matches
                SinpError::Protocol(_) && final(self).spec_state() == old(self).spec_state()
                && final(self).spec_conversation_id() == old(self).spec_conversation_id()
                && final(self).spec_last_message_id() == old(self).spec_last_message_id()),
            (old(self).spec_state() == ServerState::Received && !within_replay_window(
                now_ms,
                request.timestamp,
                old(self).spec_config().replay_window_ms,
            )) ==> (r matches Err(e) && e matches SinpError::ReplayDetected { .. } && final(self).spec_state() == ServerState::Failed && final(self).spec_conversation_id() == old(self).spec_conversation_id()
                && final(self).spec_last_message_id() == old(self).spec_last_message_id()),
            (old(self).spec_state() == ServerState::Received && within_replay_window(
                now_ms,
                request.timestamp,
                old(self).spec_config().replay_window_ms,
            ) && (old(self).spec_conversation_id() matches Some(cid) && request.conversation_id
                != cid)) ==> (r matches Err(e) && e matches SinpError::Validation(_) && final(self).spec_state() == ServerState::Failed && final(self).spec_conversation_id() == old(
                self,
            ).spec_conversation_id() && final(self).spec_last_message_id() == old(
                self,
            ).spec_last_message_id()),
            (old(self).spec_state() == ServerState::Received && within_replay_window(
                now_ms,
                request.timestamp,
                old(self).spec_config().replay_window_ms,
            ) && (old(self).spec_conversation_id() matches Some(cid) ==> request.conversation_id
                == cid) && old(self).spec_last_message_id() is Some && request.in_response_to
                is None) ==> (r matches Err(e) && e matches SinpError::Validation(_) && final(self).spec_state() == ServerState::Failed && final(self).spec_conversation_id() == Some(
                request.conversation_id,
            ) && final(self).spec_last_message_id() == old(self).spec_last_message_id()),
            (old(self).spec_state() == ServerState::Received && within_replay_window(
                now_ms,
                request.timestamp,
                old(self).spec_config().replay_window_ms,
            ) && (old(self).spec_conversation_id() matches Some(cid) ==> request.conversation_id
                == cid) && !(old(self).spec_last_message_id() is Some && request.in_response_to
                is None)) ==> (r matches Ok(reply) && process_ok(
                *old(self),
                *final(self),
                *request,
                *registry,
                reply,
            )),
    {
        match self.transition(ServerEvent::RequestReceived) {
            Ok(()) => {},
            Err(e) => {
                return Err(e);
            },
        }
        // Replay protection.
        match check_replay_at(now_ms, request.timestamp, self.config.replay_window_ms) {
            Ok(()) => {},
            Err(e) => {
                let described = e.describe();
                match self.transition(ServerEvent::ValidationFailed(described)) {
                    Ok(()) => {},
                    Err(e2) => {
                        return Err(e2);
                    },
                }
                return Err(e);
            },
        }
        // Conversation continuity.
        let conv_ok: bool = match self.conversation_id {
            Some(cid) => request.conversation_id == cid,
            None => true,
        };
        if !conv_ok {
            let err = SinpError::Validation(String::from_str("Conversation ID mismatch"));
            let described = err.describe();
            match self.transition(ServerEvent::ValidationFailed(described)) {
                Ok(()) => {},
                Err(e2) => {
                    return Err(e2);
                },
            }
            return Err(err);
        }
        if self.conversation_id.is_none() {
            self.conversation_id = Some(request.conversation_id);
        }
        // in_response_to is required once a response has been sent.
        if self.last_message_id.is_some() && request.in_response_to.is_none() {
            let err = SinpError::Validation(
                String::from_str("Missing in_response_to for follow-up"),
            );
            let described = err.describe();
            match self.transition(ServerEvent::ValidationFailed(described)) {
                Ok(()) => {},
                Err(e2) => {
                    return Err(e2);
                },
            }
            return Err(err);
        }
        match self.transition(ServerEvent::ValidationPassed) {
            Ok(()) => {},
            Err(e) => {
                return Err(e);
            },
        }
        // Interpret.
        let interp = registry.interpret(request.intent.as_str(), &request.context);
        match self.transition(
            ServerEvent::InterpretationComplete { confidence: interp.raw_confidence },
        ) {
            Ok(()) => {},
            Err(e) => {
                return Err(e);
            },
        }
        // Compose the server confidence.
        let ghost caps = registry.spec_capabilities();
        let ghost scores = spec_scores_of(*registry, request.intent@);
        let ghost gtop = spec_top(scores);
        let policy = registry.check_policy(request);
        let phi_s: u64 = match &interp.capability {
            Some(cap) => {
                proof {
                    assert(scores.len() == caps.len());
                    assert(caps.len() > 0);
                    crate::interpreter::lemma_top_props(scores);
                    assert(0 <= gtop < caps.len());
                    assert(scores[gtop] >= registry.spec_interpreter().min_score as int);
                    assert(cap@ == caps[gtop]@);
                    lemma_find_id(caps, cap@.id);
                    let f = find_id(caps, cap@.id);
                    assert(caps[gtop]@.id == cap@.id);
                    assert(f != -1);
                    if f < gtop {
                        assert(caps[f]@.id == caps[gtop]@.id);
                        assert(false);
                    }
                    if f > gtop {
                        assert(caps[gtop]@.id != cap@.id);
                        assert(false);
                    }
                    assert(f == gtop);
                }
                let reliability = registry.get_reliability(cap.id.as_str());
                compute_server_confidence(interp.raw_confidence, reliability, SCALE, policy)
            },
            None => 0,
        };
        proof {
            assert(phi_s as int == spec_phi_s(*registry, request.intent@));
        }
        // Decide.
        let has_alternatives = interp.alternatives.len() > 0;
        proof {
            if has_alternatives {
                assert(alt_ok(
                    scores,
                    caps,
                    gtop,
                    registry.spec_interpreter().min_score,
                    interp.alternatives@[0],
                ));
                assert(spec_has_alt(*registry, request.intent@));
            } else {
                if spec_has_alt(*registry, request.intent@) {
                    assert(interp.alternatives@.len() > 0);
                }
            }
        }
        let tau_exec = self.config.thresholds.tau_exec;
        let action = decide_action(
            phi_s,
            request.confidence,
            &self.config.thresholds,
            has_alternatives && phi_s < tau_exec,
            !policy,
            false,
        );
        // Build the response.
        let responder = Responder {
            id: String::from_str("sinp-server"),
            capabilities: registry.capability_ids(),
        };
        let interpretation = Interpretation { text: interp.interpretation, confidence: phi_s };
        let mut response = Response::to_request(request, responder, interpretation, action, phi_s);
        let reply: ServerReply = match action {
            Action::Execute => {
                match self.transition(ServerEvent::DecisionExecute) {
                    Ok(()) => {},
                    Err(e) => {
                        return Err(e);
                    },
                }
                match interp.capability {
                    Some(cap) => {
                        self.last_message_id = Some(response.message_id);
                        return Ok(ServerReply::NeedsExecution { response, capability_id: cap.id });
                    },
                    None => {
                        response.action_metadata = Some(
                            ActionMetadata {
                                result: Some(JsonValue::Null),
                                questions: None,
                                reason_code: None,
                                reason: None,
                            },
                        );
                        ServerReply::Complete(response)
                    },
                }
            },
            Action::Clarify => {
                match self.transition(ServerEvent::DecisionClarify) {
                    Ok(()) => {},
                    Err(e) => {
                        return Err(e);
                    },
                }
                let mut questions: Vec<String> = Vec::new();
                questions.push(String::from_str("Could you provide more details?"));
                questions.push(String::from_str("What specific action would you like?"));
                proof {
                    assert(questions.deep_view() =~= seq![
                        "Could you provide more details?"@,
                        "What specific action would you like?"@,
                    ]);
                }
                response.action_metadata = Some(
                    ActionMetadata {
                        result: None,
                        questions: Some(questions),
                        reason_code: None,
                        reason: None,
                    },
                );
                ServerReply::Complete(response)
            },
            Action::Propose => {
                match self.transition(ServerEvent::DecisionPropose) {
                    Ok(()) => {},
                    Err(e) => {
                        return Err(e);
                    },
                }
                response.action_metadata = Some(ActionMetadata::empty());
                let mut alts: Vec<Alternative> = Vec::new();
                let mut k: usize = 0;
                while k < interp.alternatives.len()
                    invariant
                        0 <= k <= interp.alternatives@.len(),
                        alts@.len() == k,
                        registry.wf(),
                        caps == registry.spec_capabilities(),
                        scores == spec_scores_of(*registry, request.intent@),
                        gtop == spec_top(scores),
                        forall|j: int|
                            0 <= j < interp.alternatives@.len() ==> alt_ok(
                                scores,
                                caps,
                                gtop,
                                registry.spec_interpreter().min_score,
                                #[trigger] interp.alternatives@[j],
                            ),
                        forall|j: int|
                            0 <= j < k ==> proposed_alt_ok(
                                *registry,
                                request.intent@,
                                (#[trigger] alts@[j])@,
                            ),
                        forall|j: int| 0 <= j < k ==> (#[trigger] alts@[j]).confidence <= SCALE,
                    decreases interp.alternatives@.len() - k,
                {
                    let src = &interp.alternatives[k];
                    let alt = Alternative {
                        interpretation: src.interpretation.clone(),
                        confidence: src.confidence,
                        estimated_cost: Some(src.capability.cost_units),
                        capability_id: src.capability.id.clone(),
                    };
                    proof {
                        assert(alt_ok(
                            scores,
                            caps,
                            gtop,
                            registry.spec_interpreter().min_score,
                            interp.alternatives@[k as int],
                        ));
                        let j = choose|j: int|
                            0 <= j < caps.len() && j != gtop && interp.alternatives@[
                            k as int].capability@ == caps[j]@ && interp.alternatives@[
                            k as int].confidence as int == scores[j] && scores[j]
                                >= registry.spec_interpreter().min_score as int
                                && interp.alternatives@[k as int].interpretation@ == "Use "@
                                + caps[j]@.id + " capability"@;
                        assert(alt@.capability_id == caps[j]@.id);
                        assert(proposed_alt_ok(*registry, request.intent@, alt@));
                        assert(scores[j] == crate::interpreter::spec_score(
                            crate::interpreter::spec_tokenize(request.intent@),
                            crate::message::capabilities_view(caps)[j],
                            registry.spec_interpreter().match_weight,
                        ));
                        crate::interpreter::lemma_score_bound(
                            crate::interpreter::spec_tokenize(request.intent@),
                            crate::message::capabilities_view(caps)[j],
                            registry.spec_interpreter().match_weight,
                        );
                        assert(alt.confidence <= SCALE);
                    }
                    alts.push(alt);
                    k += 1;
                }
                proof {
                    assert(interp.alternatives@.len() > 0);
                    assert(alts@.len() > 0);
                }
                response.alternatives = Some(alts);
                ServerReply::Complete(response)
            },
            Action::Refuse => {
                match self.transition(ServerEvent::DecisionRefuse) {
                    Ok(()) => {},
                    Err(e) => {
                        return Err(e);
                    },
                }
                let code: RefusalCode = if !policy {
                    RefusalCode::PolicyViolation
                } else if interp.capability.is_none() {
                    RefusalCode::CapabilityMissing
                } else {
                    RefusalCode::MalformedContext
                };
                let mut reason = String::from_str("Request refused: ");
                let code_name = code.code_str();
                reason.append(code_name.as_str());
                response.action_metadata = Some(
                    ActionMetadata {
                        result: None,
                        questions: None,
                        reason_code: Some(code),
                        reason: Some(reason),
                    },
                );
                ServerReply::Complete(response)
            },
        };
        let resp_id: u128 = match &reply {
            ServerReply::Complete(resp) => resp.message_id,
            ServerReply::NeedsExecution { response: resp, .. } => resp.message_id,
        };
        self.last_message_id = Some(resp_id);
        Ok(reply)
    }
}

/// The response inside a reply.
pub open spec fn reply_response(reply: ServerReply) -> Response {
    match reply {
        ServerReply::Complete(resp) => resp,
        ServerReply::NeedsExecution { response, .. } => response,
    }
}

/// Everything a successful `process_request` promises of its reply and the
/// machine: the response is correlated to the request, its action follows
/// the decision calculus, its confidence is the server confidence, its
/// payload matches its action, and the machine records the conversation and
/// the response id and ends in Done or Negotiating as the action dictates.
pub open spec fn process_ok(
    pre: ServerStateMachine,
    post: ServerStateMachine,
    request: Request,
    registry: CapabilityRegistry,
    reply: ServerReply,
) -> bool {
    let resp = reply_response(reply);
    let intent = request.intent@;
    let action = spec_action_for(registry, pre.spec_config().thresholds, intent, request.confidence);
    &&& resp.in_response_to == request.message_id
    &&& resp.conversation_id == request.conversation_id
    &&& resp.action == action
    &&& resp.confidence as int == spec_phi_s(registry, intent)
    &&& resp.interpretation.confidence == resp.confidence
    &&& valid_response(resp)
    &&& (reply matches ServerReply::Complete(c) ==> action_payload_ok(c))
    &&& (reply matches ServerReply::NeedsExecution { response, capability_id } ==> (
        response.action == Action::Execute && response.action_metadata is None
            && response.alternatives is None && (spec_selected(registry, intent) matches Some(top)
            && capability_id@ == registry.spec_capabilities()[top]@.id)))
    &&& (resp.action == Action::Execute ==> ((reply is NeedsExecution) <==> (spec_selected(
        registry,
        intent,
    ) is Some)))
    &&& (resp.action == Action::Clarify ==> (resp@.action_metadata matches Some(m) && m.questions
        == Some(
        seq!["Could you provide more details?"@, "What specific action would you like?"@],
    )))
    &&& (resp.action == Action::Refuse ==> (resp@.action_metadata matches Some(m) && m.reason_code
        == Some(spec_refusal_for(registry, intent)) && m.reason == Some(
        "Request refused: "@ + crate::error::spec_refusal_code_str(
            spec_refusal_for(registry, intent),
        ),
    )))
    &&& (resp.alternatives matches Some(alts) ==> forall|k: int|
        0 <= k < alts@.len() ==> proposed_alt_ok(registry, intent, (#[trigger] alts@[k])@))
    &&& ((resp.action == Action::Execute || resp.action == Action::Refuse) ==> post.spec_state()
        == ServerState::Done)
    &&& ((resp.action == Action::Clarify || resp.action == Action::Propose) ==> post.spec_state()
        == ServerState::Negotiating)
    &&& post.spec_conversation_id() == Some(request.conversation_id)
    &&& post.spec_last_message_id() == Some(resp.message_id)
    &&& (spec_selected(registry, intent) matches Some(top) ==> resp.interpretation.text@
        == "Execute "@ + registry.spec_capabilities()[top]@.id + " for: "@ + intent)
    &&& (spec_selected(registry, intent) is None ==> resp.interpretation.text@
        == "No matching capability found"@)
}

/// Attach a capability's execution result to an EXECUTE response.
pub fn attach_result(response: Response, result: JsonValue) -> (r: Response)
    requires
        response.action == Action::Execute,
        response.alternatives is None,
    ensures
        r@ == (crate::message::ResponseV {
            action_metadata: Some(
                crate::message::ActionMetadataV {
                    result: Some(result@),
                    questions: None,
                    reason_code: None,
                    reason: None,
                },
            ),
            ..response@
        }),
        action_payload_ok(r),
        valid_response(response) ==> valid_response(r),
{
    let mut r = response;
    r.action_metadata = Some(
        ActionMetadata { result: Some(result), questions: None, reason_code: None, reason: None },
    );
    r
}

/// Build the synthetic REFUSE response for a failed request, so that the
/// client always receives a well-formed reply: refusal code
/// `malformed_context`, with the error's description as the reason.
pub fn create_error_response(request: &Request, error: &SinpError) -> (r: Response)
    ensures
        r.in_response_to == request.message_id,
        r.conversation_id == request.conversation_id,
        r.action == Action::Refuse,
        r.confidence == 0,
        action_payload_ok(r),
        valid_response(r),
        r@.action_metadata matches Some(m) && m.reason_code == Some(
            RefusalCode::MalformedContext,
        ),
        (error matches SinpError::ReplayDetected { timestamp } ==> (r@.action_metadata matches
            Some(m) && m.reason == Some(
            "replay attack detected: message timestamp "@ + timestamp@
                + " outside acceptable window"@,
        ))),
{
    let responder = Responder { id: String::from_str("sinp-server"), capabilities: Vec::new() };
    let interpretation = Interpretation {
        text: String::from_str("Error processing request"),
        confidence: 0,
    };
    let mut response = Response::to_request(request, responder, interpretation, Action::Refuse, 0);
    let reason = error.describe();
    response.action_metadata = Some(
        ActionMetadata {
            result: None,
            questions: None,
            reason_code: Some(RefusalCode::MalformedContext),
            reason: Some(reason),
        },
    );
    response
}

} // verus!
