use vstd::prelude::*;

verus! {

/// A JSON document, as serde_json holds it.
#[verifier::external_type_specification]
#[verifier::external_body]
pub struct ExJsonValue(serde_json::Value);

/// What an endpoint registers about itself in the discovery store.
#[derive(Debug)]
pub struct EndpointInfo {
    pub ip: String,
    pub port: String,
    /// Free-form figures about the endpoint's load.
    pub metadata: Option<serde_json::Value>,
}

} // verus!
