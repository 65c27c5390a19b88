//! The store: what the library asks of one, and one that lives in memory.

use vstd::prelude::*;
use std::collections::HashMap;
use crate::ident::{IncidentId, RuleId};
use crate::storage::{
    ConfigView, IncidentView, RuleView, StorableConfig, StorableIncident, StorableRule,
};
use crate::types::{InputConfig, InputRule, InputRuleView, Version, rule_views};

verus! {

/// Everything a store holds, as a mathematical value. Rules and incidents
/// are keyed by the 128-bit value of their identifiers.
pub struct StoreView {
    /// The current version, `None` before the first one.
    pub version: Option<Version>,
    pub configs: Map<Version, ConfigView>,
    pub rules: Map<u128, RuleView>,
    pub incidents: Map<u128, IncidentView>,
}

/// The submitted parts of those rules of `ids` that `rules` holds and that
/// no version has dropped, in the order of `ids`.
pub open spec fn active_rules(rules: Map<u128, RuleView>, ids: Seq<RuleId>) -> Seq<InputRuleView>
    decreases ids.len(),
{
    if ids.len() == 0 {
        Seq::empty()
    } else {
        let before = active_rules(rules, ids.drop_last());
        let id = ids.last();
        if rules.contains_key(id.0) && rules[id.0].is_active() {
            before.push(rules[id.0].input())
        } else {
            before
        }
    }
}

impl StoreView {
    /// The store with one rule written.
    pub open spec fn with_rule(self, id: RuleId, rule: RuleView) -> StoreView {
        StoreView { rules: self.rules.insert(id.0, rule), ..self }
    }

    /// The store with one incident written.
    pub open spec fn with_incident(self, id: IncidentId, incident: IncidentView) -> StoreView {
        StoreView { incidents: self.incidents.insert(id.0, incident), ..self }
    }

    /// The store with one configuration written. The current version moves
    /// to `version` unless it is ahead of it already.
    pub open spec fn with_config(self, version: Version, config: ConfigView) -> StoreView {
        StoreView {
            version: match self.version {
                Some(current) if current > version => Some(current),
                _ => Some(version),
            },
            configs: self.configs.insert(version, config),
            ..self
        }
    }
}

/// What the library asks of a store.
pub trait CanisterApi {
    /// What the store holds. It exists for contracts and proofs: compiled
    /// code never calls it.
    spec fn store(&self) -> StoreView;

    /// The current version.
    fn get_version(&self) -> (version: Option<Version>)
        ensures
            version == self.store().version,
    ;

    /// The configuration of a version.
    fn get_config(&self, version: Version) -> (config: Option<StorableConfig>)
        ensures
            config is Some <==> self.store().configs.contains_key(version),
            config is Some ==> config->0@ == self.store().configs[version],
    ;

    /// The rules of a version that no version has dropped, in full.
    fn get_full_config(&self, version: Version) -> (config: Option<InputConfig>)
        ensures
            config is Some <==> self.store().configs.contains_key(version),
            config is Some ==> {
                &&& config->0.schema_version == self.store().configs[version].schema_version
                &&& rule_views(config->0.rules@) == active_rules(
                    self.store().rules,
                    self.store().configs[version].rule_ids,
                )
            },
    ;

    /// The rule with this identifier.
    fn get_rule(&self, rule_id: &RuleId) -> (rule: Option<StorableRule>)
        ensures
            rule is Some <==> self.store().rules.contains_key(rule_id.0),
            rule is Some ==> rule->0@ == self.store().rules[rule_id.0],
    ;

    /// The incident with this identifier.
    fn get_incident(&self, incident_id: &IncidentId) -> (incident: Option<StorableIncident>)
        ensures
            incident is Some <==> self.store().incidents.contains_key(incident_id.0),
            incident is Some ==> incident->0@ == self.store().incidents[incident_id.0],
    ;

    /// Writes a rule, over the one that was there.
    fn upsert_rule(&mut self, rule_id: RuleId, rule: StorableRule)
        ensures
            final(self).store() == old(self).store().with_rule(rule_id, rule@),
    ;

    /// Writes an incident, over the one that was there.
    fn upsert_incident(&mut self, incident_id: IncidentId, incident: StorableIncident)
        ensures
            final(self).store() == old(self).store().with_incident(incident_id, incident@),
    ;

    /// Writes the configuration of a version.
    fn add_config(&mut self, version: Version, config: StorableConfig)
        ensures
            final(self).store() == old(self).store().with_config(version, config@),
    ;
}

/// A store in memory.
#[derive(Clone, Debug)]
pub struct CanisterState {
    version: Option<Version>,
    configs: HashMap<Version, StorableConfig>,
    rules: HashMap<u128, StorableRule>,
    incidents: HashMap<u128, StorableIncident>,
}

impl CanisterState {
    /// What the store holds.
    pub closed spec fn model(&self) -> StoreView {
        StoreView {
            version: self.version,
            configs: Map::new(
                |v: Version| self.configs@.contains_key(v),
                |v: Version| self.configs@[v]@,
            ),
            rules: Map::new(|k: u128| self.rules@.contains_key(k), |k: u128| self.rules@[k]@),
            incidents: Map::new(
                |k: u128| self.incidents@.contains_key(k),
                |k: u128| self.incidents@[k]@,
            ),
        }
    }

    /// An empty store: no version, no record.
    pub fn new() -> (state: CanisterState)
        ensures
            state.store() == (StoreView {
                version: None,
                configs: Map::empty(),
                rules: Map::empty(),
                incidents: Map::empty(),
            }),
    {
        let state = CanisterState {
            version: None,
            configs: HashMap::new(),
            rules: HashMap::new(),
            incidents: HashMap::new(),
        };
        assert(state.model().configs =~= Map::empty());
        assert(state.model().rules =~= Map::empty());
        assert(state.model().incidents =~= Map::empty());
        state
    }

    /// How many versions the store holds.
    pub fn configs_count(&self) -> (count: usize)
        ensures
            count == self.store().configs.dom().len(),
    {
        assert(self.model().configs.dom() =~= self.configs@.dom());
        self.configs.len()
    }

    /// How many incidents the store holds.
    pub fn incidents_count(&self) -> (count: usize)
        ensures
            count == self.store().incidents.dom().len(),
    {
        assert(self.model().incidents.dom() =~= self.incidents@.dom());
        self.incidents.len()
    }

    /// How many rules of the current configuration no version has dropped;
    /// zero before the first version.
    pub fn active_rules_count(&self) -> (count: usize)
        ensures
            count == match self.store().version {
                Some(v) if self.store().configs.contains_key(v) => active_rules(
                    self.store().rules,
                    self.store().configs[v].rule_ids,
                ).len(),
                _ => 0,
            },
    {
        match self.get_version() {
            Some(v) => match self.get_full_config(v) {
                Some(full) => {
                    assert(rule_views(full.rules@).len() == full.rules@.len());
                    full.rules.len()
                },
                None => 0,
            },
            None => 0,
        }
    }
}

impl CanisterApi for CanisterState {
    open spec fn store(&self) -> StoreView {
        self.model()
    }

    fn get_version(&self) -> (version: Option<Version>) {
        self.version
    }

    fn get_config(&self, version: Version) -> (config: Option<StorableConfig>) {
        match self.configs.get(&version) {
            Some(stored) => Some(stored.duplicate()),
            None => None,
        }
    }

    fn get_full_config(&self, version: Version) -> (config: Option<InputConfig>) {
        match self.configs.get(&version) {
            Some(stored) => {
                let mut rules: Vec<InputRule> = Vec::new();
                let mut i: usize = 0;
                while i < stored.rule_ids.len()
                    invariant
                        i <= stored.rule_ids.len(),
                        rule_views(rules@) == active_rules(
                            self.model().rules,
                            stored.rule_ids@.take(i as int),
                        ),
                    decreases stored.rule_ids.len() - i,
                {
                    let id = stored.rule_ids[i];
                    let ghost before = rule_views(rules@);
                    proof {
                        let ids = stored.rule_ids@;
                        assert(ids.take(i + 1).drop_last() == ids.take(i as int));
                        assert(ids.take(i + 1).last() == id);
                    }
                    match self.rules.get(&id.0) {
                        Some(rule) => {
                            if rule.removed_in_version.is_none() {
                                rules.push(rule.to_input());
                                assert(rule_views(rules@) == before.push(rule@.input()));
                            }
                        },
                        None => {},
                    }
                    i += 1;
                }
                assert(stored.rule_ids@.take(i as int) == stored.rule_ids@);
                Some(InputConfig { schema_version: stored.schema_version, rules })
            },
            None => None,
        }
    }

    fn get_rule(&self, rule_id: &RuleId) -> (rule: Option<StorableRule>) {
        match self.rules.get(&rule_id.0) {
            Some(stored) => Some(stored.duplicate()),
            None => None,
        }
    }

    fn get_incident(&self, incident_id: &IncidentId) -> (incident: Option<StorableIncident>) {
        match self.incidents.get(&incident_id.0) {
            Some(stored) => Some(stored.duplicate()),
            None => None,
        }
    }

    fn upsert_rule(&mut self, rule_id: RuleId, rule: StorableRule) {
        self.rules.insert(rule_id.0, rule);
        assert(self.model().rules =~= old(self).model().rules.insert(rule_id.0, rule@));
        assert(self.model().configs =~= old(self).model().configs);
        assert(self.model().incidents =~= old(self).model().incidents);
    }

    fn upsert_incident(&mut self, incident_id: IncidentId, incident: StorableIncident) {
        self.incidents.insert(incident_id.0, incident);
        assert(self.model().incidents =~= old(self).model().incidents.insert(
            incident_id.0,
            incident@,
        ));
        assert(self.model().configs =~= old(self).model().configs);
        assert(self.model().rules =~= old(self).model().rules);
    }

    fn add_config(&mut self, version: Version, config: StorableConfig) {
        let ghost view = config@;
        self.configs.insert(version, config);
        let ahead = match self.version {
            Some(current) => current > version,
            None => false,
        };
        if !ahead {
            self.version = Some(version);
        }
        assert(self.model().configs =~= old(self).model().configs.insert(version, view));
        assert(self.model().rules =~= old(self).model().rules);
        assert(self.model().incidents =~= old(self).model().incidents);
    }
}

} // verus!
