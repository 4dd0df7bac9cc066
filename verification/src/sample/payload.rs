//! Payloads of sample messages.
use vstd::prelude::*;

verus! {

/// `serde_yaml::Value`, carried through unread.
#[verifier::external_type_specification]
#[verifier::external_body]
pub struct ExYamlValue(serde_yaml::Value);

/// A payload: a YAML value, or bytes written as a string.
#[derive(Debug, PartialEq)]
pub enum PayloadInput {
    Payload(serde_yaml::Value),
    PayloadBytes(String),
}

/// Calls `<serde_yaml::Value as Clone>::clone`; nothing is stated of the
/// copy, which the library never reads.
#[verifier::external_body]
fn clone_yaml_value(v: &serde_yaml::Value) -> serde_yaml::Value {
    v.clone()
}

/// Whether `c` is a copy of the optional payload `p`: both absent, both a
/// YAML value, or the same bytes text.
pub open spec fn payload_copy(p: Option<PayloadInput>, c: Option<PayloadInput>) -> bool {
    match (p, c) {
        (None, None) => true,
        (Some(PayloadInput::Payload(_)), Some(PayloadInput::Payload(_))) => true,
        (Some(PayloadInput::PayloadBytes(a)), Some(PayloadInput::PayloadBytes(b))) => a == b,
        _ => false,
    }
}

impl PayloadInput {
    /// A copy of the payload.
    pub fn duplicate(&self) -> (r: PayloadInput)
        ensures
            payload_copy(Some(*self), Some(r)),
    {
        match self {
            PayloadInput::Payload(v) => PayloadInput::Payload(clone_yaml_value(v)),
            PayloadInput::PayloadBytes(s) => PayloadInput::PayloadBytes(s.clone()),
        }
    }
}

} // verus!
