//! Confidence scoring and decision logic.
//!
//! Confidence values are fixed-point integers in millionths: `SCALE`
//! (1_000_000) stands for 1.0.  The server confidence is composed as
//! `phi_s = clamp(rho * reliability * availability, 0, 1) * policy` and the
//! decision function maps the two confidences to one of the four actions,
//! with REFUSE taking absolute precedence.

use vstd::prelude::*;

use crate::message::Action;

verus! {

/// One whole unit of confidence: all confidence values, reliabilities and
/// scores lie in `0 ..= SCALE`.
pub const SCALE: u64 = 1_000_000;

/// Decision thresholds, in millionths.
#[derive(Clone, Copy, Debug, PartialEq, Eq, Structural)]
pub struct Thresholds {
    /// Threshold for the EXECUTE action (default 0.85).
    pub tau_exec: u64,
    /// Threshold for the CLARIFY action (default 0.50).
    pub tau_clarify: u64,
    /// Minimum client confidence to accept (default 0.50).
    pub tau_accept: u64,
}

impl Thresholds {
    /// All thresholds lie in the unit interval.
    pub open spec fn wf(self) -> bool {
        self.tau_exec <= SCALE && self.tau_clarify <= SCALE && self.tau_accept <= SCALE
    }

    /// Create custom thresholds.
    pub fn new(tau_exec: u64, tau_clarify: u64, tau_accept: u64) -> (r: Thresholds)
        ensures
            r == (Thresholds { tau_exec, tau_clarify, tau_accept }),
    {
        Thresholds { tau_exec, tau_clarify, tau_accept }
    }
}

impl Default for Thresholds {
    /// The default thresholds: 0.85 to execute, 0.50 to clarify, 0.50 to accept.
    fn default() -> (r: Thresholds)
        ensures
            r == (Thresholds { tau_exec: 850_000u64, tau_clarify: 500_000u64, tau_accept: 500_000u64 }),
            r.wf(),
    {
        Thresholds { tau_exec: 850_000, tau_clarify: 500_000, tau_accept: 500_000 }
    }
}

/// The server confidence: `((rho * reliability) / SCALE * availability) / SCALE`
/// when policy passes, and 0 otherwise.  Inputs in the unit interval keep the
/// result there.
pub open spec fn spec_server_confidence(
    rho: int,
    reliability: int,
    availability: int,
    policy_passed: bool,
) -> int {
    if !policy_passed {
        0
    } else {
        ((rho * reliability) / (SCALE as int)) * availability / (SCALE as int)
    }
}

/// Compute the server confidence score `phi_s` from the raw interpreter
/// probability `rho`, the capability's reliability, the resource availability
/// (1.0 when unknown) and the policy outcome.  All factors are in millionths.
pub fn compute_server_confidence(
    rho: u64,
    reliability: u64,
    availability: u64,
    policy_passed: bool,
) -> (r: u64)
    requires
        rho <= SCALE,
        reliability <= SCALE,
        availability <= SCALE,
    ensures
        r == spec_server_confidence(
            rho as int,
            reliability as int,
            availability as int,
            policy_passed,
        ),
        r <= SCALE,
        !policy_passed ==> r == 0,
{
    if !policy_passed {
        return 0;
    }
    proof {
        assert(rho as int * reliability as int <= 1_000_000_000_000) by (nonlinear_arith)
            requires
                rho <= 1_000_000,
                reliability <= 1_000_000,
        ;
    }
    let prod: u64 = rho * reliability / SCALE;
    proof {
        assert(prod as int * availability as int <= 1_000_000_000_000) by (nonlinear_arith)
            requires
                prod <= 1_000_000,
                availability <= 1_000_000,
        ;
    }
    let phi: u64 = prod * availability / SCALE;
    phi
}

/// The decision function: REFUSE on a policy violation or a malformed
/// request; EXECUTE when both confidences meet their thresholds; PROPOSE when
/// a better alternative exists; CLARIFY otherwise.
pub open spec fn spec_decide_action(
    phi_s: int,
    phi_c: int,
    thresholds: Thresholds,
    has_better_alternative: bool,
    policy_violated: bool,
    malformed: bool,
) -> Action {
    if policy_violated || malformed {
        Action::Refuse
    } else if phi_s >= thresholds.tau_exec as int && phi_c >= thresholds.tau_accept as int {
        Action::Execute
    } else if has_better_alternative {
        Action::Propose
    } else {
        Action::Clarify
    }
}

/// Decide the action from the server confidence `phi_s`, the client
/// confidence `phi_c`, the thresholds, and the three decision flags.
///
/// REFUSE has absolute precedence: a policy violation or a malformed request
/// refuses regardless of any confidence.  Threshold comparisons use `>=`, so
/// exact equality triggers the higher-precedence branch.
pub fn decide_action(
    phi_s: u64,
    phi_c: u64,
    thresholds: &Thresholds,
    has_better_alternative: bool,
    policy_violated: bool,
    malformed: bool,
) -> (r: Action)
    ensures
        r == spec_decide_action(
            phi_s as int,
            phi_c as int,
            *thresholds,
            has_better_alternative,
            policy_violated,
            malformed,
        ),
        (policy_violated || malformed) ==> r == Action::Refuse,
        r == Action::Execute ==> phi_s >= thresholds.tau_exec && phi_c >= thresholds.tau_accept,
        r == Action::Propose ==> has_better_alternative,
{
    if policy_violated || malformed {
        return Action::Refuse;
    }
    if phi_s >= thresholds.tau_exec && phi_c >= thresholds.tau_accept {
        return Action::Execute;
    }
    if has_better_alternative {
        return Action::Propose;
    }
    Action::Clarify
}

/// Simplified decision function: default thresholds, no alternative, no
/// policy violation, well-formed request.
pub fn decide_action_simple(phi_s: u64, phi_c: u64) -> (r: Action)
    ensures
        r == spec_decide_action(
            phi_s as int,
            phi_c as int,
            Thresholds { tau_exec: 850_000u64, tau_clarify: 500_000u64, tau_accept: 500_000u64 },
            false,
            false,
            false,
        ),
{
    let thresholds = Thresholds::default();
    decide_action(phi_s, phi_c, &thresholds, false, false, false)
}

/// A policy violation refuses regardless of either confidence, the
/// thresholds, or any alternative.
pub proof fn lemma_policy_violation_refuses(
    phi_s: int,
    phi_c: int,
    thresholds: Thresholds,
    has_better_alternative: bool,
    malformed: bool,
)
    ensures
        spec_decide_action(phi_s, phi_c, thresholds, has_better_alternative, true, malformed)
            == Action::Refuse,
{
}

} // verus!
