//! The client state machine: track the conversation and classify server
//! responses into the next action for the user.

use vstd::prelude::*;

use crate::error::{SinpError, SinpResult};
use crate::message::{clone_strings, Action, Alternative, Request, Response};
use crate::state::{ClientEvent, ClientState};

verus! {

/// The target state of the client automaton for an event, before the
/// legality check.
pub open spec fn client_step_target(s: ClientState, e: ClientEvent) -> Option<ClientState> {
    match (s, e) {
        (ClientState::Init, ClientEvent::RequestSent) => Some(ClientState::Pending),
        (ClientState::Pending, ClientEvent::ResponseExecute) => Some(ClientState::Satisfied),
        (ClientState::Pending, ClientEvent::ResponseClarify) => Some(ClientState::Refining),
        (ClientState::Pending, ClientEvent::ResponsePropose) => Some(ClientState::Refining),
        (ClientState::Pending, ClientEvent::ResponseRefuse) => Some(ClientState::Failed),
        (ClientState::Refining, ClientEvent::ClarificationProvided) => Some(ClientState::Pending),
        (ClientState::Refining, ClientEvent::ProposalAccepted) => Some(ClientState::Pending),
        (ClientState::Refining, ClientEvent::ProposalRejected) => Some(ClientState::Pending),
        (ClientState::Refining, ClientEvent::Abandoned) => Some(ClientState::Abandoned),
        (ClientState::Refining, ClientEvent::RequestSent) => Some(ClientState::Pending),
        (_, ClientEvent::Error(_)) => Some(ClientState::Failed),
        _ => None,
    }
}

/// The transition the client automaton takes for an event: the target
/// state, when moving there is legal.
pub open spec fn spec_client_transition(s: ClientState, e: ClientEvent) -> Option<ClientState> {
    match client_step_target(s, e) {
        Some(t) => if s.spec_can_transition_to(t) {
            Some(t)
        } else {
            None
        },
        None => None,
    }
}

/// Every transition the client automaton takes lies in the legal set.
pub proof fn lemma_client_transitions_legal(s: ClientState, e: ClientEvent)
    ensures
        spec_client_transition(s, e) matches Some(t) ==> s.spec_can_transition_to(t),
{
}

/// What the client should do next after receiving a response, purely a
/// function of the response's action.
#[derive(Debug)]
pub enum NextAction {
    /// Intent satisfied; the response carries the result.
    Done(Response),
    /// The server needs clarification.
    Clarify { questions: Vec<String>, response: Response },
    /// The server proposes alternatives.
    Propose { alternatives: Vec<Alternative>, response: Response },
    /// The request was refused.
    Refused { reason: String, response: Response },
}

/// Client state machine managing the conversation flow.
pub struct ClientStateMachine {
    state: ClientState,
    conversation_id: Option<u128>,
    last_response: Option<Response>,
}

impl ClientStateMachine {
    /// The automaton state.
    pub closed spec fn spec_state(self) -> ClientState {
        self.state
    }

    /// The conversation id, once the first request was sent.
    pub closed spec fn spec_conversation_id(self) -> Option<u128> {
        self.conversation_id
    }

    /// The last response received.
    pub closed spec fn spec_last_response(self) -> Option<Response> {
        self.last_response
    }

    /// Create a new client state machine.
    pub fn new() -> (r: ClientStateMachine)
        ensures
            r.spec_state() == ClientState::Init,
            r.spec_conversation_id() is None,
            r.spec_last_response() is None,
    {
        ClientStateMachine { state: ClientState::Init, conversation_id: None, last_response: None }
    }

    /// Get the current state.
    pub fn state(&self) -> (r: ClientState)
        ensures
            r == self.spec_state(),
    {
        self.state
    }

    /// Get the conversation id.
    pub fn conversation_id(&self) -> (r: Option<u128>)
        ensures
            r == self.spec_conversation_id(),
    {
        self.conversation_id
    }

    /// Get the last response, if any.
    pub fn last_response(&self) -> (r: Option<&Response>)
        ensures
            match r {
                Some(resp) => self.spec_last_response() matches Some(lr) && *resp == lr,
                None => self.spec_last_response() is None,
            },
    {
        self.last_response.as_ref()
    }

    /// Move the automaton along one event.  An event with no legal
    /// transition from the current state leaves the state unchanged and
    /// reports a protocol error.
    fn transition(&mut self, event: ClientEvent) -> (r: SinpResult<()>)
        ensures
            final(self).spec_conversation_id() == old(self).spec_conversation_id(),
            final(self).spec_last_response() == old(self).spec_last_response(),
            match spec_client_transition(old(self).spec_state(), event) {
                Some(t) => r is Ok && final(self).spec_state() == t,
                None => r matches Err(e) && e matches SinpError::Protocol(_)
                    && final(self).spec_state() == old(self).spec_state(),
            },
    {
        let target: Option<ClientState> = match (self.state, &event) {
            (ClientState::Init, ClientEvent::RequestSent) => Some(ClientState::Pending),
            (ClientState::Pending, ClientEvent::ResponseExecute) => Some(ClientState::Satisfied),
            (ClientState::Pending, ClientEvent::ResponseClarify) => Some(ClientState::Refining),
            (ClientState::Pending, ClientEvent::ResponsePropose) => Some(ClientState::Refining),
            (ClientState::Pending, ClientEvent::ResponseRefuse) => Some(ClientState::Failed),
            (ClientState::Refining, ClientEvent::ClarificationProvided) => Some(
                ClientState::Pending,
            ),
            (ClientState::Refining, ClientEvent::ProposalAccepted) => Some(ClientState::Pending),
            (ClientState::Refining, ClientEvent::ProposalRejected) => Some(ClientState::Pending),
            (ClientState::Refining, ClientEvent::Abandoned) => Some(ClientState::Abandoned),
            (ClientState::Refining, ClientEvent::RequestSent) => Some(ClientState::Pending),
            (_, ClientEvent::Error(_)) => Some(ClientState::Failed),
            _ => None,
        };
        match target {
            Some(t) => {
                if self.state.can_transition_to(t) {
                    self.state = t;
                    Ok(())
                } else {
                    Err(SinpError::Protocol(String::from_str("invalid state transition")))
                }
            },
            None => Err(
                SinpError::Protocol(String::from_str("no transition for event in current state")),
            ),
        }
    }

    /// Record that a request was sent: the first request binds the
    /// conversation id; the state moves to Pending.
    pub fn on_request_sent(&mut self, request: &Request) -> (r: SinpResult<()>)
        ensures
            final(self).spec_last_response() == old(self).spec_last_response(),
            old(self).spec_state() == ClientState::Init ==> final(self).spec_conversation_id()
                == Some(request.conversation_id),
            old(self).spec_state() != ClientState::Init ==> final(self).spec_conversation_id()
                == old(self).spec_conversation_id(),
            match spec_client_transition(old(self).spec_state(), ClientEvent::RequestSent) {
                Some(t) => r is Ok && final(self).spec_state() == t,
                None => r matches Err(e) && e matches SinpError::Protocol(_)
                    && final(self).spec_state() == old(self).spec_state(),
            },
    {
        if matches!(self.state, ClientState::Init) {
            self.conversation_id = Some(request.conversation_id);
        }
        self.transition(ClientEvent::RequestSent)
    }

    /// Classify a received response into the next action, purely by its
    /// action: EXECUTE satisfies, CLARIFY and PROPOSE refine, REFUSE fails.
    /// The response is recorded as the last response either way.
    pub fn on_response_received(&mut self, response: Response) -> (r: SinpResult<NextAction>)
        ensures
            final(self).spec_conversation_id() == old(self).spec_conversation_id(),
            final(self).spec_last_response() matches Some(lr) && lr@ == response@,
            old(self).spec_state() != ClientState::Pending ==> (r matches Err(e) && e matches
                SinpError::Protocol(_) && final(self).spec_state() == old(self).spec_state()),
            old(self).spec_state() == ClientState::Pending ==> (r matches Ok(next) && {
                &&& response.action == Action::Execute ==> (next matches NextAction::Done(resp)
                    && resp@ == response@ && final(self).spec_state() == ClientState::Satisfied)
                &&& response.action == Action::Clarify ==> (next matches NextAction::Clarify {
                    questions,
                    response: resp,
                } && resp@ == response@ && final(self).spec_state() == ClientState::Refining && (
                match response@.action_metadata {
                    Some(m) => match m.questions {
                        Some(qs) => questions.deep_view() == qs,
                        None => questions@.len() == 0,
                    },
                    None => questions@.len() == 0,
                }))
                &&& response.action == Action::Propose ==> (next matches NextAction::Propose {
                    alternatives,
                    response: resp,
                } && resp@ == response@ && final(self).spec_state() == ClientState::Refining && (
                match response@.alternatives {
                    Some(alts) => crate::message::alternatives_view(alternatives@) == alts,
                    None => alternatives@.len() == 0,
                }))
                &&& response.action == Action::Refuse ==> (next matches NextAction::Refused {
                    reason,
                    response: resp,
                } && resp@ == response@ && final(self).spec_state() == ClientState::Failed && (
                match response@.action_metadata {
                    Some(m) => match m.reason {
                        Some(t) => reason@ == t,
                        None => reason@ == "Request refused"@,
                    },
                    None => reason@ == "Request refused"@,
                }))
            }),
    {
        self.last_response = Some(response.clone());
        match response.action {
            Action::Execute => {
                match self.transition(ClientEvent::ResponseExecute) {
                    Ok(()) => Ok(NextAction::Done(response)),
                    Err(e) => Err(e),
                }
            },
            Action::Clarify => {
                match self.transition(ClientEvent::ResponseClarify) {
                    Ok(()) => {
                        let questions: Vec<String> = match &response.action_metadata {
                            Some(m) => match &m.questions {
                                Some(qs) => clone_strings(qs),
                                None => Vec::new(),
                            },
                            None => Vec::new(),
                        };
                        proof {
                            match response@.action_metadata {
                                Some(m) => match m.questions {
                                    Some(qs) => {
                                        assert(questions.deep_view() =~= qs);
                                    },
                                    None => {
                                        assert(questions.deep_view() =~= Seq::<Seq<char>>::empty());
                                    },
                                },
                                None => {
                                    assert(questions.deep_view() =~= Seq::<Seq<char>>::empty());
                                },
                            }
                        }
                        Ok(NextAction::Clarify { questions, response })
                    },
                    Err(e) => Err(e),
                }
            },
            Action::Propose => {
                match self.transition(ClientEvent::ResponsePropose) {
                    Ok(()) => {
                        let alternatives: Vec<Alternative> = match &response.alternatives {
                            Some(alts) => crate::message::clone_alternatives(alts),
                            None => Vec::new(),
                        };
                        proof {
                            match response@.alternatives {
                                Some(alts) => {
                                    assert(crate::message::alternatives_view(alternatives@)
                                        =~= alts);
                                },
                                None => {
                                    assert(crate::message::alternatives_view(alternatives@)
                                        =~= Seq::<crate::message::AlternativeV>::empty());
                                },
                            }
                        }
                        Ok(NextAction::Propose { alternatives, response })
                    },
                    Err(e) => Err(e),
                }
            },
            Action::Refuse => {
                match self.transition(ClientEvent::ResponseRefuse) {
                    Ok(()) => {
                        let reason: String = match &response.action_metadata {
                            Some(m) => match &m.reason {
                                Some(t) => t.clone(),
                                None => String::from_str("Request refused"),
                            },
                            None => String::from_str("Request refused"),
                        };
                        Ok(NextAction::Refused { reason, response })
                    },
                    Err(e) => Err(e),
                }
            },
        }
    }

    /// The user provided a clarification.
    pub fn on_clarification_provided(&mut self) -> (r: SinpResult<()>)
        ensures
            final(self).spec_conversation_id() == old(self).spec_conversation_id(),
            final(self).spec_last_response() == old(self).spec_last_response(),
            match spec_client_transition(
                old(self).spec_state(),
                ClientEvent::ClarificationProvided,
            ) {
                Some(t) => r is Ok && final(self).spec_state() == t,
                None => r matches Err(e) && e matches SinpError::Protocol(_)
                    && final(self).spec_state() == old(self).spec_state(),
            },
    {
        self.transition(ClientEvent::ClarificationProvided)
    }

    /// The user accepted a proposal.
    pub fn on_proposal_accepted(&mut self) -> (r: SinpResult<()>)
        ensures
            final(self).spec_conversation_id() == old(self).spec_conversation_id(),
            final(self).spec_last_response() == old(self).spec_last_response(),
            match spec_client_transition(old(self).spec_state(), ClientEvent::ProposalAccepted) {
                Some(t) => r is Ok && final(self).spec_state() == t,
                None => r matches Err(e) && e matches SinpError::Protocol(_)
                    && final(self).spec_state() == old(self).spec_state(),
            },
    {
        self.transition(ClientEvent::ProposalAccepted)
    }

    /// The user rejected a proposal.
    pub fn on_proposal_rejected(&mut self) -> (r: SinpResult<()>)
        ensures
            final(self).spec_conversation_id() == old(self).spec_conversation_id(),
            final(self).spec_last_response() == old(self).spec_last_response(),
            match spec_client_transition(old(self).spec_state(), ClientEvent::ProposalRejected) {
                Some(t) => r is Ok && final(self).spec_state() == t,
                None => r matches Err(e) && e matches SinpError::Protocol(_)
                    && final(self).spec_state() == old(self).spec_state(),
            },
    {
        self.transition(ClientEvent::ProposalRejected)
    }

    /// The user abandoned the conversation.
    pub fn abandon(&mut self) -> (r: SinpResult<()>)
        ensures
            final(self).spec_conversation_id() == old(self).spec_conversation_id(),
            final(self).spec_last_response() == old(self).spec_last_response(),
            match spec_client_transition(old(self).spec_state(), ClientEvent::Abandoned) {
                Some(t) => r is Ok && final(self).spec_state() == t,
                None => r matches Err(e) && e matches SinpError::Protocol(_)
                    && final(self).spec_state() == old(self).spec_state(),
            },
    {
        self.transition(ClientEvent::Abandoned)
    }

    /// Reset for a new conversation.
    pub fn reset(&mut self)
        ensures
            final(self).spec_state() == ClientState::Init,
            final(self).spec_conversation_id() is None,
            final(self).spec_last_response() is None,
    {
        self.state = ClientState::Init;
        self.conversation_id = None;
        self.last_response = None;
    }
}

impl Default for ClientStateMachine {
    /// A machine in the initial state.
    fn default() -> (r: ClientStateMachine)
        ensures
            r.spec_state() == ClientState::Init,
            r.spec_conversation_id() is None,
            r.spec_last_response() is None,
    {
        ClientStateMachine::new()
    }
}

} // verus!
