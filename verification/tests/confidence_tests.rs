//! Confidence values are fixed-point integers in millionths: 900_000
//! stands for 0.9.

use sinp::confidence::{
    compute_server_confidence, decide_action, decide_action_simple, Thresholds, SCALE,
};
use sinp::message::Action;

#[test]
fn confidence_computation() {
    // Normal case: 0.9 * 0.95 * 1.0 = 0.855.
    let phi = compute_server_confidence(900_000, 950_000, 1_000_000, true);
    assert_eq!(phi, 855_000);

    // Policy failed.
    let phi = compute_server_confidence(900_000, 950_000, 1_000_000, false);
    assert_eq!(phi, 0);

    // Full confidence stays at 1.0.
    let phi = compute_server_confidence(1_000_000, 1_000_000, 1_000_000, true);
    assert_eq!(phi, 1_000_000);

    // Low availability: 0.9 * 1.0 * 0.5 = 0.45.
    let phi = compute_server_confidence(900_000, 1_000_000, 500_000, true);
    assert_eq!(phi, 450_000);
}

#[test]
fn decision_execute() {
    let thresholds = Thresholds::default();
    let action = decide_action(900_000, 850_000, &thresholds, false, false, false);
    assert_eq!(action, Action::Execute);
}

#[test]
fn decision_clarify_low_server() {
    let thresholds = Thresholds::default();
    let action = decide_action(600_000, 850_000, &thresholds, false, false, false);
    assert_eq!(action, Action::Clarify);
}

#[test]
fn decision_refuse_policy() {
    let thresholds = Thresholds::default();
    let action = decide_action(950_000, 950_000, &thresholds, false, true, false);
    assert_eq!(action, Action::Refuse);
}

#[test]
fn decision_refuse_malformed() {
    let thresholds = Thresholds::default();
    let action = decide_action(950_000, 950_000, &thresholds, false, false, true);
    assert_eq!(action, Action::Refuse);
}

#[test]
fn decision_propose() {
    let thresholds = Thresholds::default();
    let action = decide_action(700_000, 850_000, &thresholds, true, false, false);
    assert_eq!(action, Action::Propose);
}

#[test]
fn custom_thresholds() {
    let thresholds = Thresholds::new(700_000, 400_000, 400_000);
    // With a lower execute threshold, 0.75 triggers EXECUTE.
    let action = decide_action(750_000, 500_000, &thresholds, false, false, false);
    assert_eq!(action, Action::Execute);
}

#[test]
fn decision_at_exact_thresholds() {
    // Exactly at the thresholds, the higher-precedence branch wins.
    let thresholds = Thresholds::default();
    let action = decide_action(
        thresholds.tau_exec,
        thresholds.tau_accept,
        &thresholds,
        true,
        false,
        false,
    );
    assert_eq!(action, Action::Execute);
    // One millionth below, PROPOSE takes over when an alternative exists.
    let action = decide_action(thresholds.tau_exec - 1, 850_000, &thresholds, true, false, false);
    assert_eq!(action, Action::Propose);
}

#[test]
fn simple_decision_uses_defaults() {
    assert_eq!(decide_action_simple(900_000, 900_000), Action::Execute);
    assert_eq!(decide_action_simple(SCALE / 2, 900_000), Action::Clarify);
}
