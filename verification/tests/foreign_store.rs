use rate_limits::add_config::{AddsConfig, ConfigAdder};
use rate_limits::api;
use rate_limits::ident::{IncidentId, RuleId};
use rate_limits::state::{CanisterApi, StoreView};
use rate_limits::storage::{StorableConfig, StorableIncident, StorableRule};
use rate_limits::types::{AddConfigError, InputConfig, InternalError};

/// A store that claims a version and holds no configuration for it.
struct Hollow {
    writes: usize,
}

impl CanisterApi for Hollow {
    // The model of the store is for proofs; nothing calls it.
    fn store(&self) -> StoreView {
        unreachable!()
    }

    fn get_version(&self) -> Option<u64> {
        Some(3)
    }

    fn get_config(&self, _version: u64) -> Option<StorableConfig> {
        None
    }

    fn get_full_config(&self, _version: u64) -> Option<InputConfig> {
        None
    }

    fn get_rule(&self, _rule_id: &RuleId) -> Option<StorableRule> {
        None
    }

    fn get_incident(&self, _incident_id: &IncidentId) -> Option<StorableIncident> {
        None
    }

    fn upsert_rule(&mut self, _rule_id: RuleId, _rule: StorableRule) {
        self.writes += 1;
    }

    fn upsert_incident(&mut self, _incident_id: IncidentId, _incident: StorableIncident) {
        self.writes += 1;
    }

    fn add_config(&mut self, _version: u64, _config: StorableConfig) {
        self.writes += 1;
    }
}

#[test]
fn version_without_a_configuration_is_reported() {
    let mut adder = ConfigAdder::new(Hollow { writes: 0 });
    let input = api::InputConfig { schema_version: 1, rules: vec![] };
    let error = adder.add_config(input, 5).unwrap_err();
    assert_eq!(error, AddConfigError::Internal(InternalError::NoConfig(3)));
    assert_eq!(error.clone(), error);
    assert_eq!(adder.canister_api.writes, 0);
}
