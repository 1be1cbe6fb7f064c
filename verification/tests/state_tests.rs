use sinp::state::{ClientState, ServerState};

#[test]
fn server_state_transitions() {
    let state = ServerState::Received;
    assert!(state.can_transition_to(ServerState::Validating));
    assert!(state.can_transition_to(ServerState::Failed));
    assert!(!state.can_transition_to(ServerState::Done));
}

#[test]
fn server_terminal_states() {
    assert!(ServerState::Done.is_terminal());
    assert!(ServerState::Failed.is_terminal());
    assert!(!ServerState::Received.is_terminal());
}

#[test]
fn client_state_transitions() {
    let state = ClientState::Init;
    assert!(state.can_transition_to(ClientState::Pending));
    assert!(!state.can_transition_to(ClientState::Satisfied));

    let refining = ClientState::Refining;
    assert!(refining.can_transition_to(ClientState::Pending));
    assert!(refining.can_transition_to(ClientState::Abandoned));
}

#[test]
fn client_terminal_states() {
    assert!(ClientState::Satisfied.is_terminal());
    assert!(ClientState::Abandoned.is_terminal());
    assert!(!ClientState::Pending.is_terminal());
}

#[test]
fn server_valid_transition_lists() {
    let from_received = ServerState::Received.valid_transitions();
    assert_eq!(from_received, vec![ServerState::Validating, ServerState::Failed]);
    assert!(ServerState::Done.valid_transitions().is_empty());
    let from_client_refining = ClientState::Refining.valid_transitions();
    assert_eq!(
        from_client_refining,
        vec![ClientState::Pending, ClientState::Abandoned, ClientState::Failed]
    );
}
