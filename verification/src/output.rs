use vstd::prelude::*;

verus! {

/// The metadata of a served resource document.
#[derive(Debug, PartialEq, Clone)]
pub struct Metadata {
    pub name: String,
    pub namespace: Option<String>,
    pub resource_version: String,
}

/// A resource document reduced to its identifying fields, as the
/// serving side writes it out.
#[derive(Debug, PartialEq, Clone)]
pub struct K8sResourceOutput {
    pub api_version: String,
    pub kind: String,
    pub metadata: Metadata,
}

} // verus!
