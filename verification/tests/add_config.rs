use rate_limits::add_config::{AddsConfig, ConfigAdder};
use rate_limits::api;
use rate_limits::ident::IncidentId;
use rate_limits::state::{CanisterApi, CanisterState};
use rate_limits::storage::{StorableConfig, StorableIncident, StorableRule};
use rate_limits::types::{AddConfigError, InputConfigError, InternalError};
use uuid::Uuid;

#[derive(Debug, PartialEq)]
struct FullConfig {
    schema_version: u64,
    active_since: u64,
    rules: Vec<StorableRule>,
}

fn retrieve_full_config(canister_api: &CanisterState, version: u64) -> FullConfig {
    let config = canister_api.get_config(version).unwrap();

    let mut full_config = FullConfig {
        schema_version: config.schema_version,
        active_since: config.active_since,
        rules: vec![],
    };

    for rule_id in config.rule_ids.iter() {
        let rule = canister_api.get_rule(rule_id).unwrap();
        full_config.rules.push(rule);
    }

    full_config
}

fn new_incident_id() -> IncidentId {
    IncidentId(Uuid::new_v4().as_u128())
}

fn text_of(incident_id: IncidentId) -> String {
    Uuid::from_u128(incident_id.0).to_string()
}

fn input_rule(incident_id: IncidentId, rule_raw: &[u8], description: &str) -> api::InputRule {
    api::InputRule {
        incident_id: text_of(incident_id),
        rule_raw: rule_raw.to_vec(),
        description: description.to_string(),
    }
}

fn stored_rule(
    incident_id: IncidentId,
    rule_raw: &[u8],
    description: &str,
    added_in_version: u64,
    removed_in_version: Option<u64>,
) -> StorableRule {
    StorableRule {
        incident_id,
        rule_raw: rule_raw.to_vec(),
        description: description.to_string(),
        disclosed_at: None,
        added_in_version,
        removed_in_version,
    }
}

// A comprehensive test for adding new rate-limit configs
#[test]
fn test_add_config_success() {
    let current_time = 10u64;
    let schema_version = 1;
    let mut canister_state = CanisterState::new();
    // Add init config_1 corresponding to version=1 to the canister state
    canister_state.add_config(
        1,
        StorableConfig {
            schema_version,
            active_since: current_time,
            rule_ids: vec![],
        },
    );

    let incident_id_1 = new_incident_id();
    let incident_id_2 = new_incident_id();
    let incident_id_3 = new_incident_id();

    // Two rules are added to the previous config.
    let config_2 = api::InputConfig {
        schema_version,
        rules: vec![
            input_rule(incident_id_1, b"{\"a\": 1, \"b\": 2}", "best rule #1 ever"),
            input_rule(incident_id_1, b"{\"c\": 3, \"d\": 4}", "best rule #2 ever"),
        ],
    };
    // Two rules are swapped.
    let config_3 = api::InputConfig {
        schema_version: schema_version + 1,
        rules: vec![
            input_rule(incident_id_1, b"{\"c\": 3, \"d\": 4}", "best rule #2 ever"),
            input_rule(incident_id_1, b"{\"a\": 1, \"b\": 2}", "best rule #1 ever"),
        ],
    };
    // One rule is added in the middle.
    // NOTE: rule binary representations of two rules have changed, but not the inner JSON, hence rules are unchanged
    let config_4 = api::InputConfig {
        schema_version: schema_version + 1,
        rules: vec![
            // binary representation has changed, but not the inner JSON
            input_rule(incident_id_1, b"{\"b\": 2, \"a\": 1}", "best rule #1 ever"),
            // Brand new rule
            input_rule(incident_id_2, b"{}", "best rule #3 ever"),
            // binary representation has changed, but not the inner JSON
            input_rule(incident_id_1, b"{\"d\": 4, \"c\": 3}", "best rule #2 ever"),
        ],
    };
    // This config adds two new rules and removes the first two.
    let config_5 = api::InputConfig {
        schema_version: schema_version + 1,
        rules: vec![
            // Brand new rule
            input_rule(incident_id_2, b"{\"e\": 5, \"f\": 6}", "best rate-limit rule #4 ever"),
            // This rule is unchanged from the previous config
            input_rule(incident_id_1, b"{\"c\": 3, \"d\": 4}", "best rule #2 ever"),
            // Brand new rule
            input_rule(incident_id_3, b"{\"g\": 7, \"e\": 8}", "best rate-limit rule #5 ever"),
        ],
    };
    // This config removes all existing rules, it is empty
    let config_6 = api::InputConfig {
        schema_version: schema_version + 1,
        rules: vec![],
    };

    let mut adder = ConfigAdder::new(canister_state);

    // Perform multiple add config operations
    adder
        .add_config(config_2, current_time)
        .expect("failed to add config");
    adder
        .add_config(config_3, current_time + 1)
        .expect("failed to add config");
    adder
        .add_config(config_4, current_time + 2)
        .expect("failed to add config");
    adder
        .add_config(config_5, current_time + 3)
        .expect("failed to add config");
    adder
        .add_config(config_6, current_time + 4)
        .expect("failed to add config");

    let canister_state = &adder.canister_api;

    // Assert expected configs
    let version = 1;
    assert_eq!(
        retrieve_full_config(canister_state, version),
        FullConfig {
            schema_version: 1,
            active_since: current_time,
            rules: vec![],
        }
    );

    let rule_1 = stored_rule(incident_id_1, b"{\"a\": 1, \"b\": 2}", "best rule #1 ever", 2, Some(5));
    let rule_2 = stored_rule(incident_id_1, b"{\"c\": 3, \"d\": 4}", "best rule #2 ever", 2, Some(6));
    let rule_3 = stored_rule(incident_id_2, b"{}", "best rule #3 ever", 4, Some(5));
    let rule_4 = stored_rule(
        incident_id_2,
        b"{\"e\": 5, \"f\": 6}",
        "best rate-limit rule #4 ever",
        5,
        Some(6),
    );
    let rule_5 = stored_rule(
        incident_id_3,
        b"{\"g\": 7, \"e\": 8}",
        "best rate-limit rule #5 ever",
        5,
        Some(6),
    );

    let version = 2;
    assert_eq!(
        retrieve_full_config(canister_state, version),
        FullConfig {
            schema_version: 1,
            active_since: current_time,
            rules: vec![rule_1.duplicate(), rule_2.duplicate()],
        }
    );

    let version = 3;
    assert_eq!(
        retrieve_full_config(canister_state, version),
        FullConfig {
            schema_version: 2,
            active_since: current_time + 1,
            rules: vec![rule_2.duplicate(), rule_1.duplicate()],
        }
    );

    let version = 4;
    assert_eq!(
        retrieve_full_config(canister_state, version),
        FullConfig {
            schema_version: 2,
            active_since: current_time + 2,
            rules: vec![rule_1.duplicate(), rule_3.duplicate(), rule_2.duplicate()],
        }
    );

    let version = 5;
    assert_eq!(
        retrieve_full_config(canister_state, version),
        FullConfig {
            schema_version: 2,
            active_since: current_time + 3,
            rules: vec![rule_4.duplicate(), rule_2.duplicate(), rule_5.duplicate()],
        }
    );

    let version = 6;
    assert_eq!(
        retrieve_full_config(canister_state, version),
        FullConfig {
            schema_version: 2,
            active_since: current_time + 4,
            rules: vec![],
        }
    );

    assert_eq!(canister_state.incidents_count(), 3);
    assert_eq!(canister_state.active_rules_count(), 0);
    assert_eq!(canister_state.configs_count(), 6);
}

#[test]
fn test_add_config_fails_with_invalid_inputs() {
    // Arrange
    let current_time = 10u64;
    let canister_state = CanisterState::new();
    let invalid_config_1 = api::InputConfig {
        schema_version: 1,
        rules: vec![api::InputRule {
            incident_id: "not_a_valid_uuid".to_string(),
            rule_raw: b"{}".to_vec(),
            description: "".to_string(),
        }],
    };
    let invalid_config_2 = api::InputConfig {
        schema_version: 1,
        rules: vec![
            api::InputRule {
                incident_id: "ebe7dbb1-63c9-420e-980d-eb0f8c20a9fb".to_string(),
                rule_raw: b"{}".to_vec(),
                description: "".to_string(),
            },
            api::InputRule {
                incident_id: "ebe7dbb1-63c9-420e-980d-eb0f8c20a9fb".to_string(),
                rule_raw: b"not_a_valid_json".to_vec(),
                description: "".to_string(),
            },
        ],
    };
    let invalid_config_3 = api::InputConfig {
        schema_version: 1,
        rules: vec![
            // Rules at indices 0 and 2 are identical because they have matching field values, even though their rule_raw JSON objects have different binary representations
            api::InputRule {
                incident_id: "ebe7dbb1-63c9-420e-980d-eb0f8c20a9fb".to_string(),
                rule_raw: b"{\"a\": 1, \"b\": 2}".to_vec(),
                description: "verbose description".to_string(),
            },
            api::InputRule {
                incident_id: "ebe7dbb1-63c9-420e-980d-eb0f8c20a9fb".to_string(),
                rule_raw: b"[]".to_vec(),
                description: "".to_string(),
            },
            // identical to rule at index = 0, despite having different rule_raw bin representation
            api::InputRule {
                incident_id: "ebe7dbb1-63c9-420e-980d-eb0f8c20a9fb".to_string(),
                rule_raw: b"{\"b\": 2, \"a\": 1}".to_vec(),
                description: "verbose description".to_string(),
            },
        ],
    };
    // Act & assert
    let mut adder = ConfigAdder::new(canister_state);
    let error = adder
        .add_config(invalid_config_1, current_time)
        .unwrap_err();
    assert!(
        matches!(error, AddConfigError::InvalidInputConfig(InputConfigError::InvalidIncidentUuidFormat(idx)) if idx == 0)
    );
    let error = adder
        .add_config(invalid_config_2, current_time)
        .unwrap_err();
    assert!(
        matches!(error, AddConfigError::InvalidInputConfig(InputConfigError::InvalidRuleJsonEncoding(idx)) if idx == 1)
    );
    let error = adder
        .add_config(invalid_config_3, current_time)
        .unwrap_err();
    assert!(
        matches!(error, AddConfigError::InvalidInputConfig(InputConfigError::DuplicateRules(idx1, idx2))  if idx1 == 0 && idx2 == 2)
    );
}

#[test]
fn test_add_config_without_init_version_fails() {
    // Arrange
    let canister_state = CanisterState::new();
    let mut adder = ConfigAdder::new(canister_state);
    let current_time = 10u64;
    let config = api::InputConfig {
        schema_version: 1,
        rules: vec![],
    };
    // Act & assert
    let error = adder.add_config(config, current_time).unwrap_err();
    assert!(
        matches!(error, AddConfigError::Internal(err) if err.message() == "No existing config version found")
    );
    assert_eq!(error, AddConfigError::Internal(InternalError::NoVersion));
    assert_eq!(adder.canister_api.configs_count(), 0);
}

#[test]
fn test_add_config_with_policy_violation_fails() {
    // Arrange
    let mut canister_state = CanisterState::new();
    canister_state.add_config(
        1,
        StorableConfig {
            schema_version: 1,
            active_since: 1,
            rule_ids: vec![],
        },
    );
    let incident_id_1 = new_incident_id();
    let incident_id_2 = new_incident_id();
    let storable_incident_1 = StorableIncident {
        is_disclosed: false,
        rule_ids: vec![],
    };
    // This incident is disclosed, new rules can't be linked to it anymore.
    let storable_incident_2 = StorableIncident {
        is_disclosed: true,
        rule_ids: vec![],
    };
    canister_state.upsert_incident(incident_id_1, storable_incident_1);
    canister_state.upsert_incident(incident_id_2, storable_incident_2);
    let config = api::InputConfig {
        schema_version: 1,
        rules: vec![
            api::InputRule {
                incident_id: text_of(incident_id_1),
                rule_raw: b"{}".to_vec(),
                description: "".to_string(),
            },
            api::InputRule {
                incident_id: text_of(incident_id_2), // this incident is already disclosed, new rule can't be added
                rule_raw: b"{}".to_vec(),
                description: "".to_string(),
            },
        ],
    };
    // Act & assert
    let mut adder = ConfigAdder::new(canister_state);
    let error = adder.add_config(config, 1u64).unwrap_err();
    assert!(
        matches!(error, AddConfigError::LinkingRuleToDisclosedIncident{index, incident_id} if index == 1 && incident_id == incident_id_2)
    );
    // Nothing was written: one version, two incidents, no rule linked.
    assert_eq!(adder.canister_api.get_version(), Some(1));
    assert_eq!(adder.canister_api.configs_count(), 1);
    assert_eq!(adder.canister_api.incidents_count(), 2);
    assert!(adder
        .canister_api
        .get_incident(&incident_id_1)
        .unwrap()
        .rule_ids
        .is_empty());
}
