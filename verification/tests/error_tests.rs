use sinp::error::RefusalCode;

#[test]
fn refusal_code_display() {
    assert_eq!(RefusalCode::MalformedContext.code_str(), "malformed_context");
    assert_eq!(RefusalCode::PrivacyViolation.code_str(), "privacy_violation");
    assert_eq!(RefusalCode::CapabilityMissing.code_str(), "capability_missing");
    assert_eq!(RefusalCode::PolicyViolation.code_str(), "policy_violation");
}

#[test]
fn refusal_code_serde() {
    let code = RefusalCode::PolicyViolation;
    let name = code.code_str();
    assert_eq!(name, "policy_violation");

    let parsed = RefusalCode::from_code_str(&name).unwrap();
    assert_eq!(parsed, code);
    assert!(RefusalCode::from_code_str("not_a_code").is_none());
}
