//! Adding a configuration: the one operation that moves the store from one
//! version to the next.
//!
//! A configuration is the whole ordered list of rules. A rule that the
//! current configuration holds keeps its identifier, wherever it now
//! stands; any other rule is new and gets an identifier drawn at random. A
//! new rule cannot be linked to a disclosed incident. Either every change
//! of a submission is written, or none.

use vstd::prelude::*;
use crate::api;
use crate::commit::{commit_changes, committed, records};
use crate::diff::{
    admit_new_rule, assigned, assigns, disclosed, dropped, find_rule, is_known,
    links, pending, removed_ids,
};
use crate::ident::{generate_random_uuid, IncidentId, RuleId};
use crate::state::{active_rules, CanisterApi, StoreView};
use crate::storage::{ConfigView, RuleView, StorableConfig, StorableRule};
use crate::types::{
    AddConfigError, InputRuleView, InternalError, Timestamp, Version, rule_views,
};
use crate::validate::{accepts, parsed_rules, rejects, validate};

verus! {

/// The schema version of the first configuration.
pub const INIT_JSON_SCHEMA_VERSION: Version = 1;

/// The version of the first configuration.
pub const INIT_VERSION: Version = 1;

/// Adding a configuration to a store.
pub trait AddsConfig {
    /// Adds `config` as the next version, active since `time`.
    fn add_config(&mut self, config: api::InputConfig, time: Timestamp) -> Result<
        (),
        AddConfigError,
    >;
}

/// Adds configurations to the store it holds.
pub struct ConfigAdder<A> {
    /// The store.
    pub canister_api: A,
}

impl<A> ConfigAdder<A> {
    pub fn new(canister_api: A) -> (adder: Self)
        ensures
            adder.canister_api == canister_api,
    {
        Self { canister_api }
    }
}

/// The identifiers of the current configuration, where there is one.
pub open spec fn current_ids(store: StoreView) -> Seq<RuleId> {
    store.configs[store.version->0].rule_ids
}

/// The rules of the current configuration, where there is one.
pub open spec fn current_rules(store: StoreView) -> Seq<InputRuleView> {
    active_rules(store.rules, current_ids(store))
}

/// Why a store cannot take a next version, `None` where it can: it has no
/// version yet, no configuration under its version, no version left to
/// count to, or a rule of its current configuration is missing or dropped.
pub open spec fn not_ready(store: StoreView) -> Option<InternalError> {
    match store.version {
        None => Some(InternalError::NoVersion),
        Some(version) => if !store.configs.contains_key(version) {
            Some(InternalError::NoConfig(version))
        } else if version == u64::MAX {
            Some(InternalError::VersionOverflow(version))
        } else if current_rules(store).len() != current_ids(store).len() {
            Some(InternalError::InconsistentState(version))
        } else {
            None
        },
    }
}

/// Whether a rule of the submission is new.
pub open spec fn has_new_rule(store: StoreView, input: api::InputConfig) -> bool {
    exists|k: int|
        0 <= k < input.rules@.len() && !is_known(
            current_rules(store),
            #[trigger] parsed_rules(input.rules@)[k],
        )
}

/// Whether the call can come to a stop at the rule at `index`: the rule is
/// new, and no new rule before it is of a disclosed incident.
pub open spec fn stops_at(store: StoreView, input: api::InputConfig, index: int) -> bool {
    let rules = parsed_rules(input.rules@);
    let known = current_rules(store);
    &&& 0 <= index < rules.len()
    &&& !is_known(known, rules[index])
    &&& forall|k: int|
        0 <= k < index && !is_known(known, #[trigger] rules[k]) ==> !disclosed(
            store,
            rules[k].incident_id,
        )
}

/// Whether the call can come to a stop at some rule.
pub open spec fn may_stop(store: StoreView, input: api::InputConfig) -> bool {
    exists|index: int| stops_at(store, input, index)
}

/// Whether the rule at `index` is the first new rule of a disclosed
/// incident, and `incident_id` that incident.
pub open spec fn blocked_at(
    store: StoreView,
    input: api::InputConfig,
    index: usize,
    incident_id: IncidentId,
) -> bool {
    &&& stops_at(store, input, index as int)
    &&& parsed_rules(input.rules@)[index as int].incident_id == incident_id
    &&& disclosed(store, incident_id)
}

/// The store after `input` was added at `time` with `ids` standing for its
/// rules: one version on, the rules of the current configuration that are
/// not among `ids` marked as dropped, the new rules stored, every rule
/// linked to its incident.
pub open spec fn store_after(
    store: StoreView,
    input: api::InputConfig,
    time: Timestamp,
    ids: Seq<RuleId>,
) -> StoreView {
    let next_version = (store.version->0 + 1) as u64;
    let rules = parsed_rules(input.rules@);
    committed(
        store,
        next_version,
        ConfigView { schema_version: input.schema_version, active_since: time, rule_ids: ids },
        dropped(current_ids(store), ids),
        pending(current_rules(store), rules, ids, next_version),
        links(rules, ids),
    )
}

/// Whether `ids` may stand for the rules of `input`: see `assigned`.
pub open spec fn may_assign(store: StoreView, input: api::InputConfig, ids: Seq<RuleId>) -> bool {
    assigns(
        store,
        current_rules(store),
        current_ids(store),
        parsed_rules(input.rules@),
        ids,
    )
}

/// Whether `error` is one that a valid submission to `store` can end in.
pub open spec fn may_fail_with(store: StoreView, input: api::InputConfig, error: AddConfigError)
    -> bool {
    match error {
        AddConfigError::InvalidInputConfig(_) => false,
        AddConfigError::Internal(InternalError::RandomSource) => {
            not_ready(store) is None && may_stop(store, input)
        },
        AddConfigError::Internal(InternalError::IdCollision(id)) => {
            &&& not_ready(store) is None
            &&& may_stop(store, input)
            &&& store.rules.contains_key(id.0)
        },
        AddConfigError::Internal(other) => not_ready(store) == Some(other),
        AddConfigError::LinkingRuleToDisclosedIncident { index, incident_id } => {
            not_ready(store) is None && blocked_at(store, input, index, incident_id)
        },
    }
}

/// What adding `input` at `time` may make of `before`: `result` and the
/// store `after`.
///
/// An invalid submission is refused with its error. A store that is not
/// ready refuses a valid one with its reason. Else the call succeeds
/// unless a new rule stops it: the random source fails, the identifier
/// drawn is taken, or the incident of the rule is disclosed. The rules are
/// taken in order, so the rule that stops the call has no new rule of a
/// disclosed incident before it. With no new rule the call succeeds. On success the store is `store_after` with some
/// identifiers that may stand for the rules; on failure it is unchanged.
pub open spec fn adds_config(
    before: StoreView,
    input: api::InputConfig,
    time: Timestamp,
    result: Result<(), AddConfigError>,
    after: StoreView,
) -> bool {
    match result {
        Ok(()) => {
            &&& accepts(input)
            &&& not_ready(before) is None
            &&& exists|ids: Seq<RuleId>|
                may_assign(before, input, ids) && after == #[trigger] store_after(
                    before,
                    input,
                    time,
                    ids,
                )
        },
        Err(AddConfigError::InvalidInputConfig(error)) => {
            &&& rejects(input, error)
            &&& after == before
        },
        Err(error) => {
            &&& accepts(input)
            &&& may_fail_with(before, input, error)
            &&& after == before
        },
    }
}

impl<A: CanisterApi> AddsConfig for ConfigAdder<A> {
    /// Adds `input_config` as the next version of the store, active since
    /// `time`.
    fn add_config(&mut self, input_config: api::InputConfig, time: Timestamp) -> (r: Result<
        (),
        AddConfigError,
    >)
        ensures
            adds_config(
                old(self).canister_api.store(),
                input_config,
                time,
                r,
                final(self).canister_api.store(),
            ),
            accepts(input_config) && not_ready(old(self).canister_api.store()) is None
                && !has_new_rule(old(self).canister_api.store(), input_config) ==> r is Ok,
    {
        let ghost before = self.canister_api.store();
        let next_config = match validate(&input_config) {
            Ok(config) => config,
            Err(error) => {
                return Err(AddConfigError::InvalidInputConfig(error));
            },
        };
        let ghost rules = parsed_rules(input_config.rules@);

        let current_version = match self.canister_api.get_version() {
            Some(version) => version,
            None => {
                return Err(AddConfigError::Internal(InternalError::NoVersion));
            },
        };
        let current_config = match self.canister_api.get_config(current_version) {
            Some(config) => config,
            None => {
                return Err(AddConfigError::Internal(InternalError::NoConfig(current_version)));
            },
        };
        let current_full_config = match self.canister_api.get_full_config(current_version) {
            Some(config) => config,
            None => {
                return Err(AddConfigError::Internal(InternalError::NoConfig(current_version)));
            },
        };
        let next_version = match current_version.checked_add(1) {
            Some(version) => version,
            None => {
                return Err(
                    AddConfigError::Internal(InternalError::VersionOverflow(current_version)),
                );
            },
        };
        if current_full_config.rules.len() != current_config.rule_ids.len() {
            assert(rule_views(current_full_config.rules@).len()
                == current_full_config.rules@.len());
            return Err(
                AddConfigError::Internal(InternalError::InconsistentState(current_version)),
            );
        }
        let ghost known = current_rules(before);
        assert(known == rule_views(current_full_config.rules@));
        assert(known.len() == current_full_config.rules@.len());
        assert(not_ready(before) is None);

        // Ordered identifiers of all rules of the submission.
        let mut rule_ids: Vec<RuleId> = Vec::new();
        // The rules that the submission introduces.
        let mut new_rules: Vec<(RuleId, StorableRule)> = Vec::new();
        // For each rule, its incident and its identifier.
        let mut incident_links: Vec<(IncidentId, RuleId)> = Vec::new();

        let n = next_config.rules.len();
        assert(rules.len() == n) by {
            assert(rule_views(next_config.rules@).len() == n);
        }
        let mut i: usize = 0;
        while i < n
            invariant
                i <= n,
                n == next_config.rules@.len(),
                rules == parsed_rules(input_config.rules@),
                rules == rule_views(next_config.rules@),
                rules.len() == n,
                self.canister_api.store() == before,
                known == current_rules(before),
                known == rule_views(current_full_config.rules@),
                known.len() == current_config.rule_ids@.len(),
                current_config@.rule_ids == current_ids(before),
                not_ready(before) is None,
                accepts(input_config),
                rule_ids@.len() == i,
                assigns(before, known, current_ids(before), rules.take(i as int), rule_ids@),
                records(new_rules@) == pending(known, rules.take(i as int), rule_ids@, next_version),
                incident_links@ == links(rules.take(i as int), rule_ids@),
                new_rules@.len() == 0 ==> forall|k: int|
                    0 <= k < i ==> is_known(known, #[trigger] rules[k]),
            decreases n - i,
        {
            let input_rule = &next_config.rules[i];
            assert(input_rule@ == rules[i as int]);
            let ghost ids_before = rule_ids@;
            let ghost records_before = records(new_rules@);
            proof {
                assert(rules.take(i + 1).drop_last() == rules.take(i as int));
                assert(rules.take(i + 1).last() == rules[i as int]);
            }
            // Is the rule resubmitted, or is it new?
            let rule_id = match find_rule(&current_full_config.rules, input_rule) {
                Some(position) => current_config.rule_ids[position],
                None => {
                    let drawn = generate_random_uuid();
                    match admit_new_rule(&self.canister_api, i, input_rule, next_version, drawn) {
                        Ok((rule_id, rule)) => {
                            new_rules.push((rule_id, rule));
                            assert(records(new_rules@) == records_before.push(
                                (rule_id, rule@),
                            ));
                            rule_id
                        },
                        Err(error) => {
                            proof {
                                assert(!is_known(known, parsed_rules(input_config.rules@)[i as int]));
                                assert(has_new_rule(before, input_config));
                                assert(rules[i as int].incident_id == input_rule.incident_id);
                                assert forall|k: int|
                                    0 <= k < i && !is_known(known, #[trigger] rules[k]) implies !disclosed(
                                    before,
                                    rules[k].incident_id,
                                ) by {
                                    assert(rules.take(i as int)[k] == rules[k]);
                                    assert(assigned(
                                        before,
                                        known,
                                        current_ids(before),
                                        rules.take(i as int)[k],
                                        rule_ids@[k],
                                    ));
                                }
                                assert(stops_at(before, input_config, i as int));
                            }
                            return Err(error);
                        },
                    }
                },
            };
            incident_links.push((input_rule.incident_id, rule_id));
            rule_ids.push(rule_id);
            proof {
                assert(rule_ids@.drop_last() == ids_before);
                assert(rule_ids@.last() == rule_id);
                assert(incident_links@ =~= links(rules.take(i + 1), rule_ids@));
                assert forall|k: int| 0 <= k < i + 1 implies assigned(
                    before,
                    known,
                    current_ids(before),
                    rules.take(i + 1)[k],
                    #[trigger] rule_ids@[k],
                ) by {
                    if k < i {
                        assert(rules.take(i as int)[k] == rules.take(i + 1)[k]);
                        assert(rule_ids@[k] == ids_before[k]);
                    }
                }
            }
            i += 1;
        }
        assert(rules.take(n as int) == rules);

        let removed_rule_ids = removed_ids(&current_config.rule_ids, &rule_ids);

        let storable_config = StorableConfig {
            schema_version: next_config.schema_version,
            active_since: time,
            rule_ids,
        };
        proof {
            lemma_all_stored(before.rules, current_ids(before));
            assert(may_assign(before, input_config, storable_config.rule_ids@));
        }

        commit_changes(
            &mut self.canister_api,
            next_version,
            storable_config,
            removed_rule_ids,
            new_rules,
            incident_links,
        );
        assert(self.canister_api.store() == store_after(
            before,
            input_config,
            time,
            storable_config@.rule_ids,
        ));

        Ok(())
    }
}

/// There are no more active rules than identifiers.
pub proof fn lemma_active_rules_len(rules: Map<u128, RuleView>, ids: Seq<RuleId>)
    ensures
        active_rules(rules, ids).len() <= ids.len(),
    decreases ids.len(),
{
    if ids.len() > 0 {
        lemma_active_rules_len(rules, ids.drop_last());
    }
}

/// Where there are as many active rules as identifiers, every identifier
/// has a rule that is stored and not dropped, and the active rules stand
/// place by place for the identifiers.
pub proof fn lemma_all_stored(rules: Map<u128, RuleView>, ids: Seq<RuleId>)
    requires
        active_rules(rules, ids).len() == ids.len(),
    ensures
        forall|k: int|
            0 <= k < ids.len() ==> {
                &&& rules.contains_key((#[trigger] ids[k]).0)
                &&& rules[ids[k].0].is_active()
                &&& active_rules(rules, ids)[k] == rules[ids[k].0].input()
            },
    decreases ids.len(),
{
    if ids.len() > 0 {
        lemma_active_rules_len(rules, ids.drop_last());
        lemma_all_stored(rules, ids.drop_last());
        assert forall|k: int| 0 <= k < ids.len() implies {
            &&& rules.contains_key((#[trigger] ids[k]).0)
            &&& rules[ids[k].0].is_active()
            &&& active_rules(rules, ids)[k] == rules[ids[k].0].input()
        } by {
            if k < ids.len() - 1 {
                assert(ids.drop_last()[k] == ids[k]);
            }
        }
    }
}

} // verus!
