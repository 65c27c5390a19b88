//! The submission as a caller hands it in: text and bytes, nothing checked.

use vstd::prelude::*;

verus! {

/// One submitted rule, before any validation.
#[derive(Clone, Debug)]
pub struct InputRule {
    /// The incident the rule belongs to, as text.
    pub incident_id: String,
    /// The rule itself: the bytes of a JSON document.
    pub rule_raw: Vec<u8>,
    /// Why the rule was introduced.
    pub description: String,
}

/// A submitted configuration: the whole ordered list of rules.
#[derive(Clone, Debug)]
pub struct InputConfig {
    pub schema_version: u64,
    pub rules: Vec<InputRule>,
}

} // verus!
