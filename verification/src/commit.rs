//! Writing the next version: every change of one submission, as one unit.

use vstd::prelude::*;
use crate::ident::{IncidentId, RuleId};
use crate::state::{CanisterApi, StoreView};
use crate::storage::{
    new_incident, ConfigView, IncidentView, RuleView, StorableConfig, StorableIncident,
    StorableRule,
};
use crate::types::Version;

verus! {

/// The rules with each rule of `removed` marked as dropped by `version`.
pub open spec fn mark_removed(
    rules: Map<u128, RuleView>,
    removed: Seq<RuleId>,
    version: Version,
) -> Map<u128, RuleView>
    decreases removed.len(),
{
    if removed.len() == 0 {
        rules
    } else {
        let before = mark_removed(rules, removed.drop_last(), version);
        let id = removed.last();
        before.insert(id.0, before[id.0].removed_in(version))
    }
}

/// The rules with each record of `new_rules` written, in order.
pub open spec fn insert_rules(
    rules: Map<u128, RuleView>,
    new_rules: Seq<(RuleId, RuleView)>,
) -> Map<u128, RuleView>
    decreases new_rules.len(),
{
    if new_rules.len() == 0 {
        rules
    } else {
        insert_rules(rules, new_rules.drop_last()).insert(new_rules.last().0.0, new_rules.last().1)
    }
}

/// The incident under `id` as far as it is known, else a new one.
pub open spec fn incident_or_new(incidents: Map<u128, IncidentView>, id: IncidentId)
    -> IncidentView {
    if incidents.contains_key(id.0) {
        incidents[id.0]
    } else {
        new_incident()
    }
}

/// The incidents with each rule of `links` linked to its incident. An
/// incident that was not there comes into being undisclosed.
pub open spec fn link_rules(
    incidents: Map<u128, IncidentView>,
    links: Seq<(IncidentId, RuleId)>,
) -> Map<u128, IncidentView>
    decreases links.len(),
{
    if links.len() == 0 {
        incidents
    } else {
        let before = link_rules(incidents, links.drop_last());
        let (incident_id, rule_id) = links.last();
        before.insert(incident_id.0, incident_or_new(before, incident_id).with_rule(rule_id))
    }
}

/// The store after a version was written: dropped rules marked, new rules
/// stored, incidents grown, the configuration added under `next_version`.
pub open spec fn committed(
    store: StoreView,
    next_version: Version,
    config: ConfigView,
    removed: Seq<RuleId>,
    new_rules: Seq<(RuleId, RuleView)>,
    links: Seq<(IncidentId, RuleId)>,
) -> StoreView {
    StoreView {
        rules: insert_rules(mark_removed(store.rules, removed, next_version), new_rules),
        incidents: link_rules(store.incidents, links),
        ..store
    }.with_config(next_version, config)
}

/// The records of `new_rules` as mathematical values.
pub open spec fn records(new_rules: Seq<(RuleId, StorableRule)>) -> Seq<(RuleId, RuleView)> {
    Seq::new(new_rules.len(), |i: int| (new_rules[i].0, new_rules[i].1@))
}

/// Marking rules as dropped neither adds nor takes away a rule that is
/// stored.
pub proof fn lemma_mark_removed_keeps(
    rules: Map<u128, RuleView>,
    removed: Seq<RuleId>,
    version: Version,
    key: u128,
)
    requires
        rules.contains_key(key),
    ensures
        mark_removed(rules, removed, version).contains_key(key),
    decreases removed.len(),
{
    if removed.len() > 0 {
        lemma_mark_removed_keeps(rules, removed.drop_last(), version, key);
    }
}

/// Writes the next version. Every rule of `removed_rules` must be stored:
/// the rules that a configuration drops are rules of the one before it.
pub fn commit_changes<A: CanisterApi>(
    canister_api: &mut A,
    next_version: Version,
    storable_config: StorableConfig,
    removed_rules: Vec<RuleId>,
    new_rules: Vec<(RuleId, StorableRule)>,
    incident_links: Vec<(IncidentId, RuleId)>,
)
    requires
        forall|k: int|
            0 <= k < removed_rules@.len() ==> old(canister_api).store().rules.contains_key(
                (#[trigger] removed_rules@[k]).0,
            ),
    ensures
        final(canister_api).store() == committed(
            old(canister_api).store(),
            next_version,
            storable_config@,
            removed_rules@,
            records(new_rules@),
            incident_links@,
        ),
{
    let ghost start = canister_api.store();
    let mut i: usize = 0;
    while i < removed_rules.len()
        invariant
            i <= removed_rules.len(),
            forall|k: int|
                0 <= k < removed_rules@.len() ==> start.rules.contains_key(
                    (#[trigger] removed_rules@[k]).0,
                ),
            canister_api.store() == (StoreView {
                rules: mark_removed(start.rules, removed_rules@.take(i as int), next_version),
                ..start
            }),
        decreases removed_rules.len() - i,
    {
        let rule_id = removed_rules[i];
        proof {
            assert(removed_rules@.take(i + 1).drop_last() == removed_rules@.take(i as int));
            assert(removed_rules@.take(i + 1).last() == rule_id);
            assert(start.rules.contains_key(removed_rules@[i as int].0));
            lemma_mark_removed_keeps(
                start.rules,
                removed_rules@.take(i as int),
                next_version,
                rule_id.0,
            );
        }
        let mut rule = canister_api.get_rule(&rule_id).unwrap();
        rule.removed_in_version = Some(next_version);
        canister_api.upsert_rule(rule_id, rule);
        i += 1;
    }
    assert(removed_rules@.take(i as int) == removed_rules@);
    let ghost marked = canister_api.store();

    let mut i: usize = 0;
    while i < new_rules.len()
        invariant
            i <= new_rules.len(),
            canister_api.store() == (StoreView {
                rules: insert_rules(marked.rules, records(new_rules@).take(i as int)),
                ..marked
            }),
        decreases new_rules.len() - i,
    {
        proof {
            let all = records(new_rules@);
            assert(all.take(i + 1).drop_last() == all.take(i as int));
            assert(all.take(i + 1).last() == (new_rules@[i as int].0, new_rules@[i as int].1@));
        }
        let rule_id = new_rules[i].0;
        let rule = new_rules[i].1.duplicate();
        canister_api.upsert_rule(rule_id, rule);
        i += 1;
    }
    assert(records(new_rules@).take(i as int) == records(new_rules@));
    let ghost stored = canister_api.store();

    let mut i: usize = 0;
    while i < incident_links.len()
        invariant
            i <= incident_links.len(),
            canister_api.store() == (StoreView {
                incidents: link_rules(stored.incidents, incident_links@.take(i as int)),
                ..stored
            }),
        decreases incident_links.len() - i,
    {
        proof {
            assert(incident_links@.take(i + 1).drop_last() == incident_links@.take(i as int));
            assert(incident_links@.take(i + 1).last() == incident_links@[i as int]);
        }
        let incident_id = incident_links[i].0;
        let rule_id = incident_links[i].1;
        let mut incident = match canister_api.get_incident(&incident_id) {
            Some(stored_incident) => stored_incident,
            None => StorableIncident { is_disclosed: false, rule_ids: Vec::new() },
        };
        assert(incident@ == incident_or_new(canister_api.store().incidents, incident_id)) by {
            assert(Seq::<RuleId>::empty().to_set() =~= Set::<RuleId>::empty());
        }
        incident.link(rule_id);
        canister_api.upsert_incident(incident_id, incident);
        i += 1;
    }
    assert(incident_links@.take(i as int) == incident_links@);

    canister_api.add_config(next_version, storable_config);
}

} // verus!
