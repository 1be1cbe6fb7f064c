//! Error taxonomy and refusal codes.

use vstd::prelude::*;

use crate::strutil::str_eq;

verus! {

/// Refusal codes carried by REFUSE responses.
#[derive(Clone, Copy, Debug, PartialEq, Eq, Structural)]
pub enum RefusalCode {
    /// Semantic hash mismatch or invalid structure.
    MalformedContext,
    /// The request requires PII but privacy constraints forbid it.
    PrivacyViolation,
    /// No capability matches the intent.
    CapabilityMissing,
    /// The intent is understood but forbidden by server rules.
    PolicyViolation,
}

/// The wire name of a refusal code: lowercase snake case.
pub open spec fn spec_refusal_code_str(code: RefusalCode) -> Seq<char> {
    match code {
        RefusalCode::MalformedContext => "malformed_context"@,
        RefusalCode::PrivacyViolation => "privacy_violation"@,
        RefusalCode::CapabilityMissing => "capability_missing"@,
        RefusalCode::PolicyViolation => "policy_violation"@,
    }
}

/// Distinct refusal codes have distinct wire names.
pub proof fn lemma_refusal_code_strs_injective()
    ensures
        spec_refusal_code_str(RefusalCode::MalformedContext) == "malformed_context"@,
        spec_refusal_code_str(RefusalCode::PrivacyViolation) == "privacy_violation"@,
        spec_refusal_code_str(RefusalCode::CapabilityMissing) == "capability_missing"@,
        spec_refusal_code_str(RefusalCode::PolicyViolation) == "policy_violation"@,
        "malformed_context"@ != "privacy_violation"@,
        "malformed_context"@ != "capability_missing"@,
        "malformed_context"@ != "policy_violation"@,
        "privacy_violation"@ != "capability_missing"@,
        "privacy_violation"@ != "policy_violation"@,
        "capability_missing"@ != "policy_violation"@,
{
    reveal_strlit("malformed_context");
    reveal_strlit("privacy_violation");
    reveal_strlit("capability_missing");
    reveal_strlit("policy_violation");
    assert("malformed_context"@.len() == 17);
    assert("privacy_violation"@.len() == 17);
    assert("capability_missing"@.len() == 18);
    assert("policy_violation"@.len() == 16);
    assert("malformed_context"@[0] == 'm');
    assert("privacy_violation"@[0] == 'p');
}

impl RefusalCode {
    /// The wire name of this refusal code, in lowercase snake case.
    pub fn code_str(&self) -> (r: String)
        ensures
            r@ == spec_refusal_code_str(*self),
    {
        match self {
            RefusalCode::MalformedContext => String::from_str("malformed_context"),
            RefusalCode::PrivacyViolation => String::from_str("privacy_violation"),
            RefusalCode::CapabilityMissing => String::from_str("capability_missing"),
            RefusalCode::PolicyViolation => String::from_str("policy_violation"),
        }
    }

    /// Parse a wire name back into a refusal code.
    pub fn from_code_str(s: &str) -> (r: Option<RefusalCode>)
        ensures
            forall|c: RefusalCode| s@ == spec_refusal_code_str(c) <==> r == Some(c),
    {
        proof {
            lemma_refusal_code_strs_injective();
        }
        let r: Option<RefusalCode> = if str_eq(s, "malformed_context") {
            Some(RefusalCode::MalformedContext)
        } else if str_eq(s, "privacy_violation") {
            Some(RefusalCode::PrivacyViolation)
        } else if str_eq(s, "capability_missing") {
            Some(RefusalCode::CapabilityMissing)
        } else if str_eq(s, "policy_violation") {
            Some(RefusalCode::PolicyViolation)
        } else {
            None
        };
        proof {
            assert forall|c: RefusalCode| s@ == spec_refusal_code_str(c) <==> r == Some(c) by {
                if c == RefusalCode::MalformedContext {
                    assert(spec_refusal_code_str(c) == "malformed_context"@);
                } else if c == RefusalCode::PrivacyViolation {
                    assert(spec_refusal_code_str(c) == "privacy_violation"@);
                } else if c == RefusalCode::CapabilityMissing {
                    assert(spec_refusal_code_str(c) == "capability_missing"@);
                } else {
                    assert(c == RefusalCode::PolicyViolation);
                    assert(spec_refusal_code_str(c) == "policy_violation"@);
                }
            }
        }
        r
    }
}

/// Protocol errors.
#[derive(Clone, Debug, PartialEq, Eq)]
pub enum SinpError {
    /// Protocol-level error: malformed message or invalid state transition.
    Protocol(String),
    /// Validation error: schema, continuity or size bound.
    Validation(String),
    /// Cryptographic error: signature or hash format.
    Crypto(String),
    /// Transport error: connection or framing.
    Transport(String),
    /// Serialization or deserialization error.
    Serialization(String),
    /// The request was refused.
    Refused { code: RefusalCode, reason: String },
    /// Replay detected: the message timestamp lies outside the window.
    ReplayDetected { timestamp: String },
    /// Signature verification failed.
    SignatureInvalid,
}

impl SinpError {
    /// A human-readable description of the error.
    pub fn describe(&self) -> (r: String)
        ensures
            self matches SinpError::ReplayDetected { timestamp } ==> r@ == "replay attack detected: message timestamp "@
                + timestamp@ + " outside acceptable window"@,
    {
        match self {
            SinpError::Protocol(msg) => String::from_str("protocol error: ").concat(msg.as_str()),
            SinpError::Validation(msg) => String::from_str("validation error: ").concat(msg.as_str()),
            SinpError::Crypto(msg) => String::from_str("crypto error: ").concat(msg.as_str()),
            SinpError::Transport(msg) => String::from_str("transport error: ").concat(msg.as_str()),
            SinpError::Serialization(msg) => String::from_str("serialization error: ").concat(
                msg.as_str(),
            ),
            SinpError::Refused { code, reason } => {
                let mut out = String::from_str("refused: ");
                let code_name = code.code_str();
                out.append(code_name.as_str());
                out.append(" - ");
                out.append(reason.as_str());
                out
            },
            SinpError::ReplayDetected { timestamp } => {
                let mut out = String::from_str("replay attack detected: message timestamp ");
                out.append(timestamp.as_str());
                out.append(" outside acceptable window");
                out
            },
            SinpError::SignatureInvalid => String::from_str("signature verification failed"),
        }
    }
}

/// Result type for protocol operations.
pub type SinpResult<T> = Result<T, SinpError>;

} // verus!
