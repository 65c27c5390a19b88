//! Validated submissions, their content, and the errors of the library.

use vstd::prelude::*;
use crate::ident::{IncidentId, RuleId};
use crate::json::json_value;

verus! {

pub type Version = u64;

pub type Timestamp = u64;

pub type SchemaVersion = u64;

/// A rule of a validated submission.
#[derive(Clone, Debug)]
pub struct InputRule {
    pub incident_id: IncidentId,
    pub rule_raw: Vec<u8>,
    pub description: String,
}

/// A validated submission.
#[derive(Clone, Debug)]
pub struct InputConfig {
    pub schema_version: SchemaVersion,
    pub rules: Vec<InputRule>,
}

/// What a rule is: its incident, the value of its payload, its description.
/// Two rules are the same rule exactly when their contents are equal.
pub struct RuleContent {
    pub incident_id: IncidentId,
    pub value: Seq<u8>,
    pub description: Seq<char>,
}

/// A rule as a mathematical value.
pub struct InputRuleView {
    pub incident_id: IncidentId,
    pub rule_raw: Seq<u8>,
    pub description: Seq<char>,
}

impl InputRuleView {
    pub open spec fn content(self) -> RuleContent {
        RuleContent {
            incident_id: self.incident_id,
            value: json_value(self.rule_raw),
            description: self.description,
        }
    }
}

impl View for InputRule {
    type V = InputRuleView;

    open spec fn view(&self) -> InputRuleView {
        InputRuleView {
            incident_id: self.incident_id,
            rule_raw: self.rule_raw@,
            description: self.description@,
        }
    }
}

/// The rules of `rules` as mathematical values, in order.
pub open spec fn rule_views(rules: Seq<InputRule>) -> Seq<InputRuleView> {
    Seq::new(rules.len(), |i: int| rules[i]@)
}

impl InputRule {
    /// Whether two rules are the same rule.
    pub fn same_content(&self, other: &InputRule) -> (same: bool)
        ensures
            same == (self@.content() == other@.content()),
    {
        self.incident_id.0 == other.incident_id.0 && self.description == other.description
            && crate::json::json_equal(&self.rule_raw, &other.rule_raw)
    }

    /// A copy of the rule.
    pub fn duplicate(&self) -> (copy: InputRule)
        ensures
            copy@ == self@,
    {
        InputRule {
            incident_id: self.incident_id,
            rule_raw: self.rule_raw.clone(),
            description: self.description.clone(),
        }
    }
}

/// Why a submission was refused before anything was looked up.
#[derive(Clone, Copy, Debug, PartialEq, Eq, Structural)]
pub enum InputConfigError {
    /// The payload of the rule at this index is no JSON document.
    InvalidRuleJsonEncoding(usize),
    /// The incident of the rule at this index is no UUID.
    InvalidIncidentUuidFormat(usize),
    /// The rules at these two indices are the same rule.
    DuplicateRules(usize, usize),
}

/// A failure that no caller's input explains.
#[derive(Clone, Copy, Debug, PartialEq, Eq, Structural)]
pub enum InternalError {
    /// The store holds no version yet.
    NoVersion,
    /// The store holds no configuration under its current version.
    NoConfig(Version),
    /// The current version is the largest there is.
    VersionOverflow(Version),
    /// The random source failed.
    RandomSource,
    /// The identifier drawn is already taken.
    IdCollision(RuleId),
    /// The store contradicts itself.
    InconsistentState(Version),
}

/// Why a configuration was not added.
#[derive(Clone, Copy, Debug, PartialEq, Eq, Structural)]
pub enum AddConfigError {
    InvalidInputConfig(InputConfigError),
    LinkingRuleToDisclosedIncident { index: usize, incident_id: IncidentId },
    Internal(InternalError),
}

impl InternalError {
    /// The text of the message.
    pub open spec fn message_text(self) -> Seq<char> {
        match self {
            InternalError::NoVersion => "No existing config version found"@,
            InternalError::NoConfig(_) => "No config for the current version found"@,
            InternalError::VersionOverflow(_) =>
                "Overflow occurred while incrementing the current version"@,
            InternalError::RandomSource => "Failed to generate random bytes"@,
            InternalError::IdCollision(_) =>
                "Failed to generate a new uuid, please retry the operation."@,
            InternalError::InconsistentState(_) => "Inconsistent state of the stored config"@,
        }
    }

    /// The error as a message for a log or a reply.
    pub fn message(&self) -> (text: String)
        ensures
            text@ == self.message_text(),
    {
        match self {
            InternalError::NoVersion => "No existing config version found".to_string(),
            InternalError::NoConfig(_) => "No config for the current version found".to_string(),
            InternalError::VersionOverflow(_) =>
                "Overflow occurred while incrementing the current version".to_string(),
            InternalError::RandomSource => "Failed to generate random bytes".to_string(),
            InternalError::IdCollision(_) =>
                "Failed to generate a new uuid, please retry the operation.".to_string(),
            InternalError::InconsistentState(_) =>
                "Inconsistent state of the stored config".to_string(),
        }
    }
}

} // verus!
