//! State machine definitions: the server and client state automata and the
//! events that drive them.

use vstd::prelude::*;

verus! {

/// Server state automaton states.
#[derive(Clone, Copy, Debug, PartialEq, Eq, Structural)]
pub enum ServerState {
    /// Initial state: message received, pending validation.
    Received,
    /// Validating replay protection and conversation continuity.
    Validating,
    /// Running the interpretation function.
    Interpreting,
    /// Applying the decision calculus.
    Deciding,
    /// Awaiting the client's answer to CLARIFY or PROPOSE.
    Negotiating,
    /// Terminal state: action completed.
    Done,
    /// Terminal state: unrecoverable failure.
    Failed,
}

impl ServerState {
    /// A state from which no transition leaves.
    pub open spec fn spec_is_terminal(self) -> bool {
        self == ServerState::Done || self == ServerState::Failed
    }

    /// The set of states this state may legally move to.
    pub open spec fn spec_can_transition_to(self, target: ServerState) -> bool {
        match self {
            ServerState::Received => target == ServerState::Validating || target == ServerState::Failed,
            ServerState::Validating => target == ServerState::Interpreting || target == ServerState::Failed,
            ServerState::Interpreting => target == ServerState::Deciding || target == ServerState::Failed,
            ServerState::Deciding => target == ServerState::Done || target == ServerState::Negotiating
                || target == ServerState::Failed,
            ServerState::Negotiating => target == ServerState::Received || target == ServerState::Done
                || target == ServerState::Failed,
            ServerState::Done => false,
            ServerState::Failed => false,
        }
    }

    /// Check if this is a terminal state.
    pub fn is_terminal(&self) -> (r: bool)
        ensures
            r == self.spec_is_terminal(),
    {
        matches!(self, ServerState::Done | ServerState::Failed)
    }

    /// Get the valid transitions from the current state.
    pub fn valid_transitions(&self) -> (r: Vec<ServerState>)
        ensures
            forall|t: ServerState| r@.contains(t) <==> self.spec_can_transition_to(t),
    {
        let r: Vec<ServerState> = match self {
            ServerState::Received => vec![ServerState::Validating, ServerState::Failed],
            ServerState::Validating => vec![ServerState::Interpreting, ServerState::Failed],
            ServerState::Interpreting => vec![ServerState::Deciding, ServerState::Failed],
            ServerState::Deciding => vec![
                ServerState::Done,
                ServerState::Negotiating,
                ServerState::Failed,
            ],
            ServerState::Negotiating => vec![
                ServerState::Received,
                ServerState::Done,
                ServerState::Failed,
            ],
            ServerState::Done => vec![],
            ServerState::Failed => vec![],
        };
        proof {
            assert forall|t: ServerState| r@.contains(t) <==> self.spec_can_transition_to(t) by {
                if self.spec_can_transition_to(t) {
                    if r@.len() >= 1 && r@[0] == t {
                        assert(r@.contains(t));
                    } else if r@.len() >= 2 && r@[1] == t {
                        assert(r@.contains(t));
                    } else if r@.len() >= 3 && r@[2] == t {
                        assert(r@.contains(t));
                    }
                }
            }
        }
        r
    }

    /// Check if a transition to the target state is valid.
    pub fn can_transition_to(&self, target: ServerState) -> (r: bool)
        ensures
            r == self.spec_can_transition_to(target),
    {
        match self {
            ServerState::Received => matches!(target, ServerState::Validating | ServerState::Failed),
            ServerState::Validating => matches!(target, ServerState::Interpreting | ServerState::Failed),
            ServerState::Interpreting => matches!(target, ServerState::Deciding | ServerState::Failed),
            ServerState::Deciding => matches!(
                target,
                ServerState::Done | ServerState::Negotiating | ServerState::Failed
            ),
            ServerState::Negotiating => matches!(
                target,
                ServerState::Received | ServerState::Done | ServerState::Failed
            ),
            ServerState::Done => false,
            ServerState::Failed => false,
        }
    }
}

/// Client state automaton states.
#[derive(Clone, Copy, Debug, PartialEq, Eq, Structural)]
pub enum ClientState {
    /// Initial state: preparing the first request.
    Init,
    /// Request sent, awaiting the server's response.
    Pending,
    /// Processing a CLARIFY or PROPOSE response.
    Refining,
    /// Terminal state: EXECUTE received, intent satisfied.
    Satisfied,
    /// Terminal state: conversation ended without satisfaction.
    Abandoned,
    /// Terminal state: refusal or error.
    Failed,
}

impl ClientState {
    /// A state from which no transition leaves.
    pub open spec fn spec_is_terminal(self) -> bool {
        self == ClientState::Satisfied || self == ClientState::Abandoned || self == ClientState::Failed
    }

    /// The set of states this state may legally move to.
    pub open spec fn spec_can_transition_to(self, target: ClientState) -> bool {
        match self {
            ClientState::Init => target == ClientState::Pending || target == ClientState::Failed,
            ClientState::Pending => target == ClientState::Refining || target == ClientState::Satisfied
                || target == ClientState::Failed,
            ClientState::Refining => target == ClientState::Pending || target == ClientState::Abandoned
                || target == ClientState::Failed,
            ClientState::Satisfied => false,
            ClientState::Abandoned => false,
            ClientState::Failed => false,
        }
    }

    /// Check if this is a terminal state.
    pub fn is_terminal(&self) -> (r: bool)
        ensures
            r == self.spec_is_terminal(),
    {
        matches!(self, ClientState::Satisfied | ClientState::Abandoned | ClientState::Failed)
    }

    /// Get the valid transitions from the current state.
    pub fn valid_transitions(&self) -> (r: Vec<ClientState>)
        ensures
            forall|t: ClientState| r@.contains(t) <==> self.spec_can_transition_to(t),
    {
        let r: Vec<ClientState> = match self {
            ClientState::Init => vec![ClientState::Pending, ClientState::Failed],
            ClientState::Pending => vec![
                ClientState::Refining,
                ClientState::Satisfied,
                ClientState::Failed,
            ],
            ClientState::Refining => vec![
                ClientState::Pending,
                ClientState::Abandoned,
                ClientState::Failed,
            ],
            ClientState::Satisfied => vec![],
            ClientState::Abandoned => vec![],
            ClientState::Failed => vec![],
        };
        proof {
            assert forall|t: ClientState| r@.contains(t) <==> self.spec_can_transition_to(t) by {
                if self.spec_can_transition_to(t) {
                    if r@.len() >= 1 && r@[0] == t {
                        assert(r@.contains(t));
                    } else if r@.len() >= 2 && r@[1] == t {
                        assert(r@.contains(t));
                    } else if r@.len() >= 3 && r@[2] == t {
                        assert(r@.contains(t));
                    }
                }
            }
        }
        r
    }

    /// Check if a transition to the target state is valid.
    pub fn can_transition_to(&self, target: ClientState) -> (r: bool)
        ensures
            r == self.spec_can_transition_to(target),
    {
        match self {
            ClientState::Init => matches!(target, ClientState::Pending | ClientState::Failed),
            ClientState::Pending => matches!(
                target,
                ClientState::Refining | ClientState::Satisfied | ClientState::Failed
            ),
            ClientState::Refining => matches!(
                target,
                ClientState::Pending | ClientState::Abandoned | ClientState::Failed
            ),
            ClientState::Satisfied => false,
            ClientState::Abandoned => false,
            ClientState::Failed => false,
        }
    }
}

/// Events that drive server state transitions.
#[derive(Clone, Debug)]
pub enum ServerEvent {
    /// New request received.
    RequestReceived,
    /// Validation passed.
    ValidationPassed,
    /// Validation failed, with the reason.
    ValidationFailed(String),
    /// Interpretation complete, carrying the raw confidence in millionths.
    InterpretationComplete { confidence: u64 },
    /// Decision made: EXECUTE.
    DecisionExecute,
    /// Decision made: CLARIFY.
    DecisionClarify,
    /// Decision made: PROPOSE.
    DecisionPropose,
    /// Decision made: REFUSE.
    DecisionRefuse,
    /// Client responded to a negotiation.
    ClientResponded,
    /// Action completed successfully.
    ActionCompleted,
    /// An error occurred, with its description.
    Error(String),
}

/// Events that drive client state transitions.
#[derive(Clone, Debug)]
pub enum ClientEvent {
    /// User submitted an intent.
    IntentSubmitted,
    /// Request sent to the server.
    RequestSent,
    /// Server responded with EXECUTE.
    ResponseExecute,
    /// Server responded with CLARIFY.
    ResponseClarify,
    /// Server responded with PROPOSE.
    ResponsePropose,
    /// Server responded with REFUSE.
    ResponseRefuse,
    /// User provided a clarification.
    ClarificationProvided,
    /// User accepted a proposal.
    ProposalAccepted,
    /// User rejected a proposal.
    ProposalRejected,
    /// User abandoned the conversation.
    Abandoned,
    /// An error occurred, with its description.
    Error(String),
}

} // verus!
