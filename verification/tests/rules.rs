use rate_limits::add_config::{AddsConfig, ConfigAdder, INIT_JSON_SCHEMA_VERSION, INIT_VERSION};
use rate_limits::api;
use rate_limits::commit::commit_changes;
use rate_limits::diff::{admit_new_rule, find_rule, removed_ids};
use rate_limits::ident::{generate_random_uuid, IncidentId, RuleId};
use rate_limits::state::{CanisterApi, CanisterState};
use rate_limits::storage::{contains_id, copy_ids, StorableConfig, StorableIncident, StorableRule};
use rate_limits::types::{AddConfigError, InputConfigError, InputRule, InternalError};
use rate_limits::validate::validate;

const INCIDENT_A: &str = "ebe7dbb1-63c9-420e-980d-eb0f8c20a9fb";
const INCIDENT_B: &str = "f63c821c-9320-476a-bde5-a2e6e4f3b0b2";
const A: IncidentId = IncidentId(0xebe7dbb1_63c9_420e_980d_eb0f8c20a9fb);
const B: IncidentId = IncidentId(0xf63c821c_9320_476a_bde5_a2e6e4f3b0b2);

fn entry(incident_id: &str, rule_raw: &str, description: &str) -> api::InputRule {
    api::InputRule {
        incident_id: incident_id.to_string(),
        rule_raw: rule_raw.as_bytes().to_vec(),
        description: description.to_string(),
    }
}

fn config(rules: Vec<api::InputRule>) -> api::InputConfig {
    api::InputConfig { schema_version: 1, rules }
}

fn rule(incident_id: IncidentId, rule_raw: &str, description: &str) -> InputRule {
    InputRule {
        incident_id,
        rule_raw: rule_raw.as_bytes().to_vec(),
        description: description.to_string(),
    }
}

fn initialised() -> ConfigAdder<CanisterState> {
    let mut state = CanisterState::new();
    state.add_config(
        INIT_VERSION,
        StorableConfig {
            schema_version: INIT_JSON_SCHEMA_VERSION,
            active_since: 10,
            rule_ids: vec![],
        },
    );
    ConfigAdder::new(state)
}

fn ids_of(adder: &ConfigAdder<CanisterState>, version: u64) -> Vec<RuleId> {
    adder.canister_api.get_config(version).unwrap().rule_ids
}

#[test]
fn incident_id_is_the_value_of_the_uuid() {
    assert_eq!(IncidentId::parse(INCIDENT_A), Some(A));
    assert_eq!(
        IncidentId::parse("EBE7DBB163C9420E980DEB0F8C20A9FB"),
        Some(A)
    );
    assert_eq!(IncidentId::parse("not_a_valid_uuid"), None);
    assert_eq!(IncidentId::parse(""), None);
}

#[test]
fn rule_id_reads_bytes_most_significant_first() {
    let bytes: [u8; 16] = [1, 2, 3, 4, 5, 6, 7, 8, 9, 10, 11, 12, 13, 14, 15, 16];
    assert_eq!(
        RuleId::from_bytes(&bytes),
        Some(RuleId(0x0102030405060708090a0b0c0d0e0f10))
    );
    assert_eq!(RuleId::from_bytes(&[0u8; 16]), Some(RuleId(0)));
}

#[test]
fn random_identifiers_differ() {
    let first = generate_random_uuid().unwrap();
    let second = generate_random_uuid().unwrap();
    assert_ne!(first, second);
}

#[test]
fn content_equality_ignores_the_encoding() {
    let left = rule(A, "{\"a\":1,\"b\":2}", "same");
    let right = rule(A, "{\"b\":2,\"a\":1}", "same");
    assert!(left.same_content(&right));
    assert!(right.same_content(&left));
    assert!(left.same_content(&left.duplicate()));
    // Another payload, another description, another incident: another rule.
    assert!(!left.same_content(&rule(A, "{\"a\":1,\"b\":3}", "same")));
    assert!(!left.same_content(&rule(A, "{\"a\":1,\"b\":2}", "other")));
    assert!(!left.same_content(&rule(B, "{\"a\":1,\"b\":2}", "same")));
    // A number is not the text of it.
    assert!(!rule(A, "1", "").same_content(&rule(A, "\"1\"", "")));
    // Bytes that are no document count as null.
    assert!(rule(A, "not json", "").same_content(&rule(A, " null ", "")));
    assert!(!rule(A, "not json", "").same_content(&rule(A, "{}", "")));
}

#[test]
fn validation_reads_a_valid_submission() {
    let input = api::InputConfig {
        schema_version: 7,
        rules: vec![
            entry(INCIDENT_A, "{\"a\": 1}", "first"),
            entry(INCIDENT_B, "[1, 2, 3]", "second"),
        ],
    };
    let read = validate(&input).unwrap();
    assert_eq!(read.schema_version, 7);
    assert_eq!(read.rules.len(), 2);
    assert_eq!(read.rules[0].incident_id, A);
    assert_eq!(read.rules[0].rule_raw, b"{\"a\": 1}".to_vec());
    assert_eq!(read.rules[0].description, "first");
    assert_eq!(read.rules[1].incident_id, B);
    assert_eq!(read.rules[1].rule_raw, b"[1, 2, 3]".to_vec());
    assert_eq!(read.rules[1].description, "second");
    assert!(validate(&config(vec![])).unwrap().rules.is_empty());
}

#[test]
fn validation_reports_the_first_malformed_rule() {
    // The incident is looked at before the payload.
    let both = config(vec![entry("nope", "nope", "")]);
    assert_eq!(
        validate(&both).unwrap_err(),
        InputConfigError::InvalidIncidentUuidFormat(0)
    );
    // The lower index wins, whatever is wrong with it.
    let payload_first = config(vec![
        entry(INCIDENT_A, "{", ""),
        entry("nope", "{}", ""),
    ]);
    assert_eq!(
        validate(&payload_first).unwrap_err(),
        InputConfigError::InvalidRuleJsonEncoding(0)
    );
    // A malformed rule is reported before a duplicate.
    let duplicate_and_malformed = config(vec![
        entry(INCIDENT_A, "{}", ""),
        entry(INCIDENT_A, "{}", ""),
        entry(INCIDENT_A, "", ""),
    ]);
    assert_eq!(
        validate(&duplicate_and_malformed).unwrap_err(),
        InputConfigError::InvalidRuleJsonEncoding(2)
    );
}

#[test]
fn validation_reports_the_first_colliding_pair() {
    let input = config(vec![
        entry(INCIDENT_A, "{\"x\": 1}", "a"),
        entry(INCIDENT_A, "{\"y\": 1}", "b"),
        entry(INCIDENT_A, "{\"y\":1}", "b"),
        entry(INCIDENT_A, "{ \"x\" : 1 }", "a"),
    ]);
    assert_eq!(
        validate(&input).unwrap_err(),
        InputConfigError::DuplicateRules(0, 3)
    );
    // The same payload under another incident is another rule.
    let distinct = config(vec![
        entry(INCIDENT_A, "{\"x\": 1}", "a"),
        entry(INCIDENT_B, "{\"x\": 1}", "a"),
    ]);
    assert!(validate(&distinct).is_ok());
}

#[test]
fn find_rule_gives_the_first_place() {
    let known = vec![
        rule(A, "{\"a\": 1}", "one"),
        rule(A, "{\"b\": 2}", "two"),
        rule(A, "{\"b\":2}", "two"),
    ];
    assert_eq!(find_rule(&known, &rule(A, " {\"b\" : 2} ", "two")), Some(1));
    assert_eq!(find_rule(&known, &rule(A, "{\"a\":1}", "one")), Some(0));
    assert_eq!(find_rule(&known, &rule(B, "{\"a\":1}", "one")), None);
    assert_eq!(find_rule(&vec![], &rule(A, "{}", "")), None);
}

#[test]
fn removed_ids_are_those_no_longer_listed() {
    let current = vec![RuleId(1), RuleId(2), RuleId(3), RuleId(4)];
    let next = vec![RuleId(4), RuleId(9), RuleId(2)];
    assert_eq!(removed_ids(&current, &next), vec![RuleId(1), RuleId(3)]);
    assert_eq!(removed_ids(&current, &vec![]), current);
    assert_eq!(removed_ids(&vec![], &next), vec![]);
    assert!(contains_id(&next, RuleId(9)));
    assert!(!contains_id(&next, RuleId(1)));
    assert_eq!(copy_ids(&next), next);
}

#[test]
fn admission_of_a_new_rule() {
    let mut state = CanisterState::new();
    state.upsert_rule(RuleId(5), StorableRule::introduce(&rule(A, "{}", "old"), 1));
    state.upsert_incident(B, StorableIncident { is_disclosed: true, rule_ids: vec![] });
    state.upsert_incident(A, StorableIncident { is_disclosed: false, rule_ids: vec![] });
    let fresh = rule(A, "{\"k\": 1}", "new");

    assert_eq!(
        admit_new_rule(&state, 3, &fresh, 2, None).unwrap_err(),
        AddConfigError::Internal(InternalError::RandomSource)
    );
    assert_eq!(
        admit_new_rule(&state, 3, &fresh, 2, Some(RuleId(5))).unwrap_err(),
        AddConfigError::Internal(InternalError::IdCollision(RuleId(5)))
    );
    // A taken identifier is reported before a disclosed incident.
    assert_eq!(
        admit_new_rule(&state, 3, &rule(B, "{}", ""), 2, Some(RuleId(5))).unwrap_err(),
        AddConfigError::Internal(InternalError::IdCollision(RuleId(5)))
    );
    assert_eq!(
        admit_new_rule(&state, 3, &rule(B, "{}", ""), 2, Some(RuleId(6))).unwrap_err(),
        AddConfigError::LinkingRuleToDisclosedIncident { index: 3, incident_id: B }
    );
    let (id, record) = admit_new_rule(&state, 3, &fresh, 2, Some(RuleId(6))).unwrap();
    assert_eq!(id, RuleId(6));
    assert_eq!(
        record,
        StorableRule {
            incident_id: A,
            rule_raw: b"{\"k\": 1}".to_vec(),
            description: "new".to_string(),
            disclosed_at: None,
            added_in_version: 2,
            removed_in_version: None,
        }
    );
    // An incident that the store does not know is no obstacle.
    let unknown = IncidentId(77);
    assert!(admit_new_rule(&state, 0, &rule(unknown, "{}", ""), 2, Some(RuleId(8))).is_ok());
}

#[test]
fn commit_writes_every_change() {
    let mut state = CanisterState::new();
    state.add_config(
        1,
        StorableConfig { schema_version: 1, active_since: 10, rule_ids: vec![RuleId(1), RuleId(2)] },
    );
    state.upsert_rule(RuleId(1), StorableRule::introduce(&rule(A, "{}", "one"), 1));
    state.upsert_rule(RuleId(2), StorableRule::introduce(&rule(A, "[]", "two"), 1));
    state.upsert_incident(A, StorableIncident { is_disclosed: true, rule_ids: vec![RuleId(1), RuleId(2)] });

    commit_changes(
        &mut state,
        2,
        StorableConfig { schema_version: 3, active_since: 20, rule_ids: vec![RuleId(7), RuleId(2)] },
        vec![RuleId(1)],
        vec![(RuleId(7), StorableRule::introduce(&rule(B, "1", "seven"), 2))],
        vec![(B, RuleId(7)), (A, RuleId(2))],
    );

    assert_eq!(state.get_version(), Some(2));
    assert_eq!(
        state.get_config(2),
        Some(StorableConfig { schema_version: 3, active_since: 20, rule_ids: vec![RuleId(7), RuleId(2)] })
    );
    assert_eq!(state.get_config(1).unwrap().rule_ids, vec![RuleId(1), RuleId(2)]);
    let dropped = state.get_rule(&RuleId(1)).unwrap();
    assert_eq!(dropped.removed_in_version, Some(2));
    assert_eq!(dropped.added_in_version, 1);
    assert_eq!(dropped.description, "one");
    assert_eq!(state.get_rule(&RuleId(2)).unwrap().removed_in_version, None);
    let added = state.get_rule(&RuleId(7)).unwrap();
    assert_eq!(added.added_in_version, 2);
    assert_eq!(added.removed_in_version, None);
    assert_eq!(added.incident_id, B);
    // The known incident keeps its flag and its rules; the new one is undisclosed.
    assert_eq!(
        state.get_incident(&A),
        Some(StorableIncident { is_disclosed: true, rule_ids: vec![RuleId(1), RuleId(2)] })
    );
    assert_eq!(
        state.get_incident(&B),
        Some(StorableIncident { is_disclosed: false, rule_ids: vec![RuleId(7)] })
    );
    assert_eq!(state.get_full_config(2).unwrap().rules.len(), 2);
    assert_eq!(state.get_full_config(1).unwrap().rules.len(), 1);
    assert_eq!(state.active_rules_count(), 2);
    assert_eq!(state.configs_count(), 2);
    assert_eq!(state.incidents_count(), 2);
}

#[test]
fn resubmission_changes_no_record() {
    let mut adder = initialised();
    adder
        .add_config(
            config(vec![
                entry(INCIDENT_A, "{\"a\": 1, \"b\": 2}", "one"),
                entry(INCIDENT_B, "{\"c\": 3}", "two"),
            ]),
            11,
        )
        .unwrap();
    let ids = ids_of(&adder, 2);
    let rules_before: Vec<StorableRule> =
        ids.iter().map(|id| adder.canister_api.get_rule(id).unwrap()).collect();
    let incident_a = adder.canister_api.get_incident(&A).unwrap();
    let incident_b = adder.canister_api.get_incident(&B).unwrap();

    // The same rules in the same order, the payloads encoded otherwise.
    adder
        .add_config(
            config(vec![
                entry(INCIDENT_A, "{\"b\":2,\"a\":1}", "one"),
                entry(INCIDENT_B, " { \"c\" : 3 } ", "two"),
            ]),
            12,
        )
        .unwrap();

    assert_eq!(adder.canister_api.get_version(), Some(3));
    assert_eq!(ids_of(&adder, 3), ids);
    let rules_after: Vec<StorableRule> =
        ids.iter().map(|id| adder.canister_api.get_rule(id).unwrap()).collect();
    assert_eq!(rules_after, rules_before);
    // The payload stays as it was first submitted.
    assert_eq!(rules_after[0].rule_raw, b"{\"a\": 1, \"b\": 2}".to_vec());
    assert_eq!(adder.canister_api.get_incident(&A).unwrap(), incident_a);
    assert_eq!(adder.canister_api.get_incident(&B).unwrap(), incident_b);
    assert_eq!(incident_a.rule_ids, vec![ids[0]]);
    assert_eq!(adder.canister_api.configs_count(), 3);
    assert_eq!(adder.canister_api.incidents_count(), 2);
    assert_eq!(adder.canister_api.get_config(3).unwrap().active_since, 12);
}

#[test]
fn reordering_keeps_identifiers() {
    let mut adder = initialised();
    let one = || entry(INCIDENT_A, "1", "one");
    let two = || entry(INCIDENT_A, "2", "two");
    let three = || entry(INCIDENT_B, "3", "three");
    adder.add_config(config(vec![one(), two(), three()]), 11).unwrap();
    let ids = ids_of(&adder, 2);
    assert_ne!(ids[0], ids[1]);
    assert_ne!(ids[1], ids[2]);
    assert_ne!(ids[0], ids[2]);

    adder.add_config(config(vec![three(), one(), two()]), 12).unwrap();
    assert_eq!(ids_of(&adder, 3), vec![ids[2], ids[0], ids[1]]);
    // The earlier version is as it was.
    assert_eq!(ids_of(&adder, 2), ids);
    for id in ids.iter() {
        let stored = adder.canister_api.get_rule(id).unwrap();
        assert_eq!(stored.added_in_version, 2);
        assert_eq!(stored.removed_in_version, None);
    }
    assert_eq!(adder.canister_api.active_rules_count(), 3);
}

#[test]
fn dropped_rule_stays_and_returns_under_a_new_id() {
    let mut adder = initialised();
    let one = || entry(INCIDENT_A, "{\"limit\": 1}", "one");
    let two = || entry(INCIDENT_A, "{\"limit\": 2}", "two");
    adder.add_config(config(vec![one(), two()]), 11).unwrap();
    let ids = ids_of(&adder, 2);

    adder.add_config(config(vec![two()]), 12).unwrap();
    assert_eq!(ids_of(&adder, 3), vec![ids[1]]);
    let dropped = adder.canister_api.get_rule(&ids[0]).unwrap();
    assert_eq!(dropped.removed_in_version, Some(3));
    assert_eq!(dropped.added_in_version, 2);
    assert_eq!(dropped.rule_raw, b"{\"limit\": 1}".to_vec());
    assert_eq!(adder.canister_api.get_rule(&ids[1]).unwrap().removed_in_version, None);

    // The content of the dropped rule, once more.
    adder.add_config(config(vec![two(), one()]), 13).unwrap();
    let again = ids_of(&adder, 4);
    assert_eq!(again[0], ids[1]);
    assert_ne!(again[1], ids[0]);
    assert_ne!(again[1], ids[1]);
    let returned = adder.canister_api.get_rule(&again[1]).unwrap();
    assert_eq!(returned.added_in_version, 4);
    assert_eq!(returned.removed_in_version, None);
    // The first record is still there, still dropped.
    assert_eq!(adder.canister_api.get_rule(&ids[0]).unwrap().removed_in_version, Some(3));
    // The incident has seen all three rules.
    let mut linked = adder.canister_api.get_incident(&A).unwrap().rule_ids;
    linked.sort_by_key(|id| id.0);
    let mut expected = vec![ids[0], ids[1], again[1]];
    expected.sort_by_key(|id| id.0);
    assert_eq!(linked, expected);
}

#[test]
fn reused_rule_of_a_disclosed_incident_is_accepted() {
    let mut adder = initialised();
    adder.add_config(config(vec![entry(INCIDENT_A, "{}", "kept")]), 11).unwrap();
    let ids = ids_of(&adder, 2);
    let mut incident = adder.canister_api.get_incident(&A).unwrap();
    incident.is_disclosed = true;
    adder.canister_api.upsert_incident(A, incident);

    // The rule that is there may stay.
    adder.add_config(config(vec![entry(INCIDENT_A, "{ }", "kept")]), 12).unwrap();
    assert_eq!(ids_of(&adder, 3), ids);
    // A new one may not come, and nothing is written.
    let error = adder
        .add_config(
            config(vec![
                entry(INCIDENT_B, "{}", "fine"),
                entry(INCIDENT_A, "{}", "kept"),
                entry(INCIDENT_A, "{}", "new"),
            ]),
            13,
        )
        .unwrap_err();
    assert_eq!(
        error,
        AddConfigError::LinkingRuleToDisclosedIncident { index: 2, incident_id: A }
    );
    assert_eq!(adder.canister_api.get_version(), Some(3));
    assert_eq!(adder.canister_api.configs_count(), 3);
    assert_eq!(adder.canister_api.incidents_count(), 1);
    assert_eq!(adder.canister_api.get_incident(&B), None);
    assert_eq!(adder.canister_api.get_incident(&A).unwrap().rule_ids, ids);
}

#[test]
fn versions_count_up_by_one() {
    let mut adder = initialised();
    for step in 0..5u64 {
        assert_eq!(adder.canister_api.get_version(), Some(1 + step));
        adder.add_config(config(vec![]), 20 + step).unwrap();
        assert_eq!(adder.canister_api.get_version(), Some(2 + step));
        assert_eq!(adder.canister_api.get_config(2 + step).unwrap().active_since, 20 + step);
    }
    // A refused submission does not count.
    assert!(adder.add_config(config(vec![entry("x", "{}", "")]), 30).is_err());
    assert_eq!(adder.canister_api.get_version(), Some(6));
    assert_eq!(adder.canister_api.configs_count(), 6);
}

#[test]
fn last_version_cannot_be_followed() {
    let mut state = CanisterState::new();
    state.add_config(
        u64::MAX,
        StorableConfig { schema_version: 1, active_since: 1, rule_ids: vec![] },
    );
    let mut adder = ConfigAdder::new(state);
    let error = adder.add_config(config(vec![]), 2).unwrap_err();
    assert_eq!(error, AddConfigError::Internal(InternalError::VersionOverflow(u64::MAX)));
    assert_eq!(adder.canister_api.configs_count(), 1);
}

#[test]
fn store_that_misses_a_rule_is_reported() {
    let mut state = CanisterState::new();
    state.add_config(
        1,
        StorableConfig { schema_version: 1, active_since: 1, rule_ids: vec![RuleId(42)] },
    );
    let mut adder = ConfigAdder::new(state);
    let error = adder.add_config(config(vec![]), 2).unwrap_err();
    assert_eq!(error, AddConfigError::Internal(InternalError::InconsistentState(1)));
    assert_eq!(adder.canister_api.get_version(), Some(1));
}

#[test]
fn invalid_submission_is_reported_before_a_missing_version() {
    let mut adder = ConfigAdder::new(CanisterState::new());
    let error = adder.add_config(config(vec![entry(INCIDENT_A, "{", "")]), 1).unwrap_err();
    assert_eq!(
        error,
        AddConfigError::InvalidInputConfig(InputConfigError::InvalidRuleJsonEncoding(0))
    );
}

#[test]
fn internal_errors_have_messages() {
    assert_eq!(InternalError::NoVersion.message(), "No existing config version found");
    assert_eq!(
        InternalError::NoConfig(3).message(),
        "No config for the current version found"
    );
    assert_eq!(
        InternalError::VersionOverflow(u64::MAX).message(),
        "Overflow occurred while incrementing the current version"
    );
    assert_eq!(InternalError::RandomSource.message(), "Failed to generate random bytes");
    assert_eq!(
        InternalError::IdCollision(RuleId(1)).message(),
        "Failed to generate a new uuid, please retry the operation."
    );
    assert_eq!(
        InternalError::InconsistentState(1).message(),
        "Inconsistent state of the stored config"
    );
}

#[test]
fn linking_a_rule_twice_links_it_once() {
    let mut incident = StorableIncident { is_disclosed: false, rule_ids: vec![] };
    incident.link(RuleId(1));
    incident.link(RuleId(2));
    incident.link(RuleId(1));
    assert_eq!(incident.rule_ids, vec![RuleId(1), RuleId(2)]);
    assert!(!incident.is_disclosed);
    assert_eq!(incident.duplicate(), incident);
}

#[test]
fn empty_store_holds_nothing() {
    let state = CanisterState::new();
    assert_eq!(state.get_version(), None);
    assert_eq!(state.get_config(1), None);
    assert!(state.get_full_config(1).is_none());
    assert_eq!(state.get_rule(&RuleId(1)), None);
    assert_eq!(state.get_incident(&A), None);
    assert_eq!(state.configs_count(), 0);
    assert_eq!(state.incidents_count(), 0);
    assert_eq!(state.active_rules_count(), 0);
}
