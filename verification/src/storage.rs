//! The records that the store keeps, and what each is as a mathematical value.

use vstd::prelude::*;
use crate::ident::{IncidentId, RuleId};
use crate::types::{InputRule, InputRuleView, SchemaVersion, Timestamp, Version};

verus! {

/// One version of the configuration: the identifiers of its rules, in the
/// order in which the rules apply.
#[derive(Clone, Debug, PartialEq)]
pub struct StorableConfig {
    pub schema_version: SchemaVersion,
    pub active_since: Timestamp,
    pub rule_ids: Vec<RuleId>,
}

/// A rule with its audit data.
#[derive(Clone, Debug, PartialEq)]
pub struct StorableRule {
    pub incident_id: IncidentId,
    pub rule_raw: Vec<u8>,
    pub description: String,
    pub disclosed_at: Option<Timestamp>,
    pub added_in_version: Version,
    pub removed_in_version: Option<Version>,
}

/// An incident: whether it is disclosed, and every rule ever linked to it.
#[derive(Clone, Debug, PartialEq)]
pub struct StorableIncident {
    pub is_disclosed: bool,
    pub rule_ids: Vec<RuleId>,
}

pub struct ConfigView {
    pub schema_version: SchemaVersion,
    pub active_since: Timestamp,
    pub rule_ids: Seq<RuleId>,
}

pub struct RuleView {
    pub incident_id: IncidentId,
    pub rule_raw: Seq<u8>,
    pub description: Seq<char>,
    pub disclosed_at: Option<Timestamp>,
    pub added_in_version: Version,
    pub removed_in_version: Option<Version>,
}

pub struct IncidentView {
    pub is_disclosed: bool,
    pub rule_ids: Set<RuleId>,
}

impl RuleView {
    /// The part of the rule that a caller submitted.
    pub open spec fn input(self) -> InputRuleView {
        InputRuleView {
            incident_id: self.incident_id,
            rule_raw: self.rule_raw,
            description: self.description,
        }
    }

    /// Whether no version has dropped the rule.
    pub open spec fn is_active(self) -> bool {
        self.removed_in_version is None
    }

    /// The rule as dropped by `version`.
    pub open spec fn removed_in(self, version: Version) -> RuleView {
        RuleView { removed_in_version: Some(version), ..self }
    }
}

/// The record of a rule that `version` introduces.
pub open spec fn fresh_rule(rule: InputRuleView, version: Version) -> RuleView {
    RuleView {
        incident_id: rule.incident_id,
        rule_raw: rule.rule_raw,
        description: rule.description,
        disclosed_at: None,
        added_in_version: version,
        removed_in_version: None,
    }
}

impl IncidentView {
    /// The incident with one more rule linked to it.
    pub open spec fn with_rule(self, rule_id: RuleId) -> IncidentView {
        IncidentView { rule_ids: self.rule_ids.insert(rule_id), ..self }
    }
}

/// An incident that nothing was linked to yet.
pub open spec fn new_incident() -> IncidentView {
    IncidentView { is_disclosed: false, rule_ids: Set::empty() }
}

impl View for StorableConfig {
    type V = ConfigView;

    open spec fn view(&self) -> ConfigView {
        ConfigView {
            schema_version: self.schema_version,
            active_since: self.active_since,
            rule_ids: self.rule_ids@,
        }
    }
}

impl View for StorableRule {
    type V = RuleView;

    open spec fn view(&self) -> RuleView {
        RuleView {
            incident_id: self.incident_id,
            rule_raw: self.rule_raw@,
            description: self.description@,
            disclosed_at: self.disclosed_at,
            added_in_version: self.added_in_version,
            removed_in_version: self.removed_in_version,
        }
    }
}

impl View for StorableIncident {
    type V = IncidentView;

    open spec fn view(&self) -> IncidentView {
        IncidentView { is_disclosed: self.is_disclosed, rule_ids: self.rule_ids@.to_set() }
    }
}

/// A copy of a list of identifiers.
pub fn copy_ids(ids: &Vec<RuleId>) -> (copy: Vec<RuleId>)
    ensures
        copy@ == ids@,
{
    let mut copy: Vec<RuleId> = Vec::new();
    let mut i: usize = 0;
    while i < ids.len()
        invariant
            i <= ids.len(),
            copy@ == ids@.take(i as int),
        decreases ids.len() - i,
    {
        copy.push(ids[i]);
        assert(ids@.take(i + 1) == ids@.take(i as int).push(ids@[i as int]));
        i += 1;
    }
    assert(ids@.take(ids.len() as int) == ids@);
    copy
}

/// Whether `id` is among `ids`.
pub fn contains_id(ids: &Vec<RuleId>, id: RuleId) -> (found: bool)
    ensures
        found == ids@.contains(id),
{
    let mut i: usize = 0;
    while i < ids.len()
        invariant
            i <= ids.len(),
            forall|k: int| 0 <= k < i ==> ids@[k] != id,
        decreases ids.len() - i,
    {
        if ids[i].0 == id.0 {
            return true;
        }
        i += 1;
    }
    false
}

impl StorableConfig {
    pub fn duplicate(&self) -> (copy: StorableConfig)
        ensures
            copy@ == self@,
    {
        StorableConfig {
            schema_version: self.schema_version,
            active_since: self.active_since,
            rule_ids: copy_ids(&self.rule_ids),
        }
    }
}

impl StorableRule {
    pub fn duplicate(&self) -> (copy: StorableRule)
        ensures
            copy@ == self@,
    {
        StorableRule {
            incident_id: self.incident_id,
            rule_raw: self.rule_raw.clone(),
            description: self.description.clone(),
            disclosed_at: self.disclosed_at,
            added_in_version: self.added_in_version,
            removed_in_version: self.removed_in_version,
        }
    }

    /// The part of the rule that a caller submitted.
    pub fn to_input(&self) -> (rule: InputRule)
        ensures
            rule@ == self@.input(),
    {
        InputRule {
            incident_id: self.incident_id,
            rule_raw: self.rule_raw.clone(),
            description: self.description.clone(),
        }
    }

    /// The record of `rule` as `version` introduces it.
    pub fn introduce(rule: &InputRule, version: Version) -> (record: StorableRule)
        ensures
            record@ == fresh_rule(rule@, version),
    {
        StorableRule {
            incident_id: rule.incident_id,
            rule_raw: rule.rule_raw.clone(),
            description: rule.description.clone(),
            disclosed_at: None,
            added_in_version: version,
            removed_in_version: None,
        }
    }
}

impl StorableIncident {
    pub fn duplicate(&self) -> (copy: StorableIncident)
        ensures
            copy@ == self@,
    {
        StorableIncident { is_disclosed: self.is_disclosed, rule_ids: copy_ids(&self.rule_ids) }
    }

    /// Links one more rule to the incident. A rule that is linked already
    /// is not linked twice.
    pub fn link(&mut self, rule_id: RuleId)
        ensures
            final(self)@ == old(self)@.with_rule(rule_id),
    {
        if !contains_id(&self.rule_ids, rule_id) {
            self.rule_ids.push(rule_id);
            assert(self.rule_ids@.to_set() =~= old(self).rule_ids@.to_set().insert(rule_id)) by {
                let before = old(self).rule_ids@;
                let after = self.rule_ids@;
                assert(after == before.push(rule_id));
                assert forall|x: RuleId| after.contains(x) <==> before.contains(x) || x
                    == rule_id by {
                    if after.contains(x) {
                        let k = choose|k: int| 0 <= k < after.len() && after[k] == x;
                        if k < before.len() {
                            assert(before[k] == x);
                        }
                    }
                    if before.contains(x) {
                        let k = choose|k: int| 0 <= k < before.len() && before[k] == x;
                        assert(after[k] == x);
                    }
                    assert(after[before.len() as int] == rule_id);
                }
            }
        } else {
            assert(self.rule_ids@.to_set() =~= old(self).rule_ids@.to_set().insert(rule_id));
        }
    }
}

} // verus!
