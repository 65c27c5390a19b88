//! What holds of every successful and every failed addition.

use vstd::prelude::*;
use crate::add_config::{
    adds_config, current_ids, current_rules, has_new_rule, lemma_all_stored, may_assign,
    not_ready, store_after,
};
use crate::api;
use crate::commit::{incident_or_new, insert_rules, link_rules, mark_removed};
use crate::diff::{
    assigned, disclosed, dropped, first_match, is_first_match, is_known, lemma_first_match,
    links, matches_at, pending,
};
use crate::ident::{IncidentId, RuleId};
use crate::state::{active_rules, StoreView};
use crate::storage::{fresh_rule, ConfigView, IncidentView, RuleView};
use crate::types::{AddConfigError, InputRuleView, InternalError, Timestamp, Version};
use crate::validate::{accepts, parsed_rules, same_rule};

verus! {

/// The dropped identifiers are those of the current configuration that are
/// not among the next one's.
pub proof fn lemma_dropped(current: Seq<RuleId>, ids: Seq<RuleId>, id: RuleId)
    ensures
        dropped(current, ids).contains(id) <==> current.contains(id) && !ids.contains(id),
    decreases current.len(),
{
    if current.len() > 0 {
        let head = current.drop_last();
        lemma_dropped(head, ids, id);
        let before = dropped(head, ids);
        if current.contains(id) {
            let k = choose|k: int| 0 <= k < current.len() && current[k] == id;
            if k < head.len() {
                assert(head[k] == id);
            }
        }
        if head.contains(id) {
            let k = choose|k: int| 0 <= k < head.len() && head[k] == id;
            assert(current[k] == id);
        }
        assert(current[current.len() - 1] == current.last());
        if !ids.contains(current.last()) {
            let after = before.push(current.last());
            assert(after[before.len() as int] == current.last());
            if after.contains(id) {
                let k = choose|k: int| 0 <= k < after.len() && after[k] == id;
                if k < before.len() {
                    assert(before[k] == id);
                }
            }
            if before.contains(id) {
                let k = choose|k: int| 0 <= k < before.len() && before[k] == id;
                assert(after[k] == id);
            }
        }
    }
}

/// Marking touches the rules named and no other: each stored rule is as it
/// was, but for the version that dropped it where it is named.
pub proof fn lemma_mark_removed(
    rules: Map<u128, RuleView>,
    removed: Seq<RuleId>,
    version: Version,
    key: u128,
)
    requires
        forall|k: int| 0 <= k < removed.len() ==> rules.contains_key((#[trigger] removed[k]).0),
    ensures
        mark_removed(rules, removed, version).contains_key(key) <==> rules.contains_key(key),
        rules.contains_key(key) ==> mark_removed(rules, removed, version)[key] == (if removed.contains(
            RuleId(key),
        ) {
            rules[key].removed_in(version)
        } else {
            rules[key]
        }),
    decreases removed.len(),
{
    if removed.len() > 0 {
        let head = removed.drop_last();
        assert forall|k: int| 0 <= k < head.len() implies rules.contains_key(
            (#[trigger] head[k]).0,
        ) by {
            assert(head[k] == removed[k]);
        }
        lemma_mark_removed(rules, head, version, key);
        lemma_mark_removed(rules, head, version, removed.last().0);
        assert(removed[removed.len() - 1] == removed.last());
        assert(rules.contains_key(removed.last().0));
        if head.contains(RuleId(key)) {
            let k = choose|k: int| 0 <= k < head.len() && head[k] == RuleId(key);
            assert(removed[k] == RuleId(key));
        }
        if removed.contains(RuleId(key)) && removed.last() != RuleId(key) {
            let k = choose|k: int| 0 <= k < removed.len() && removed[k] == RuleId(key);
            assert(head[k] == RuleId(key));
        }
    }
}

/// Writing records leaves every rule alone that none of them names.
pub proof fn lemma_insert_rules(
    rules: Map<u128, RuleView>,
    new_rules: Seq<(RuleId, RuleView)>,
    key: u128,
)
    requires
        forall|k: int| 0 <= k < new_rules.len() ==> (#[trigger] new_rules[k]).0.0 != key,
    ensures
        insert_rules(rules, new_rules).contains_key(key) <==> rules.contains_key(key),
        rules.contains_key(key) ==> insert_rules(rules, new_rules)[key] == rules[key],
    decreases new_rules.len(),
{
    if new_rules.len() > 0 {
        let head = new_rules.drop_last();
        assert forall|k: int| 0 <= k < head.len() implies (#[trigger] head[k]).0.0 != key by {
            assert(head[k] == new_rules[k]);
        }
        lemma_insert_rules(rules, head, key);
        assert(new_rules[new_rules.len() - 1] == new_rules.last());
    }
}

/// Every pending record is the fresh record of a new rule of the
/// submission, under the identifier that stands for that rule.
pub proof fn lemma_pending(
    known: Seq<InputRuleView>,
    rules: Seq<InputRuleView>,
    ids: Seq<RuleId>,
    version: Version,
    k: int,
)
    requires
        ids.len() == rules.len(),
        0 <= k < pending(known, rules, ids, version).len(),
    ensures
        exists|i: int|
            0 <= i < rules.len() && !is_known(known, rules[i]) && pending(
                known,
                rules,
                ids,
                version,
            )[k] == (#[trigger] ids[i], fresh_rule(rules[i], version)),
    decreases rules.len(),
{
    if rules.len() > 0 {
        let before = pending(known, rules.drop_last(), ids.drop_last(), version);
        if k < before.len() {
            lemma_pending(known, rules.drop_last(), ids.drop_last(), version, k);
            let i = choose|i: int|
                0 <= i < rules.drop_last().len() && !is_known(known, rules.drop_last()[i])
                    && before[k] == (#[trigger] ids.drop_last()[i], fresh_rule(
                    rules.drop_last()[i],
                    version,
                ));
            assert(rules.drop_last()[i] == rules[i]);
            assert(ids.drop_last()[i] == ids[i]);
            assert(pending(known, rules, ids, version)[k] == (
                ids[i],
                fresh_rule(rules[i], version),
            ));
        } else {
            let i = rules.len() - 1;
            assert(rules[i] == rules.last());
            assert(ids[i] == ids.last());
        }
    }
}

/// Where every rule of the submission is known, no record is pending.
pub proof fn lemma_nothing_pending(
    known: Seq<InputRuleView>,
    rules: Seq<InputRuleView>,
    ids: Seq<RuleId>,
    version: Version,
)
    requires
        forall|i: int| 0 <= i < rules.len() ==> is_known(known, #[trigger] rules[i]),
    ensures
        pending(known, rules, ids, version) == Seq::<(RuleId, RuleView)>::empty(),
    decreases rules.len(),
{
    if rules.len() > 0 && ids.len() > 0 {
        assert forall|i: int| 0 <= i < rules.drop_last().len() implies is_known(
            known,
            #[trigger] rules.drop_last()[i],
        ) by {
            assert(rules.drop_last()[i] == rules[i]);
        }
        lemma_nothing_pending(known, rules.drop_last(), ids.drop_last(), version);
        assert(rules[rules.len() - 1] == rules.last());
    }
}

/// Linking rules that their incidents hold already changes no incident.
pub proof fn lemma_links_present(
    incidents: Map<u128, IncidentView>,
    all: Seq<(IncidentId, RuleId)>,
)
    requires
        forall|k: int|
            0 <= k < all.len() ==> {
                &&& incidents.contains_key((#[trigger] all[k]).0.0)
                &&& incidents[all[k].0.0].rule_ids.contains(all[k].1)
            },
    ensures
        link_rules(incidents, all) == incidents,
    decreases all.len(),
{
    if all.len() > 0 {
        let head = all.drop_last();
        assert forall|k: int| 0 <= k < head.len() implies {
            &&& incidents.contains_key((#[trigger] head[k]).0.0)
            &&& incidents[head[k].0.0].rule_ids.contains(head[k].1)
        } by {
            assert(head[k] == all[k]);
        }
        lemma_links_present(incidents, head);
        let (incident_id, rule_id) = all.last();
        assert(all[all.len() - 1] == all.last());
        let current = incident_or_new(incidents, incident_id);
        assert(current.rule_ids.insert(rule_id) =~= current.rule_ids);
        assert(current.with_rule(rule_id) == current);
        assert(incidents.insert(incident_id.0, current) =~= incidents);
    }
}

/// Whether some link of `all` is to the incident under `key`.
pub open spec fn touches(all: Seq<(IncidentId, RuleId)>, key: u128) -> bool {
    exists|k: int| 0 <= k < all.len() && (#[trigger] all[k]).0.0 == key
}

/// Whether some link of `all` links `rule_id` to the incident under `key`.
pub open spec fn gains(all: Seq<(IncidentId, RuleId)>, key: u128, rule_id: RuleId) -> bool {
    exists|k: int| 0 <= k < all.len() && #[trigger] all[k] == (IncidentId(key), rule_id)
}

/// The incidents after linking, record by record: an incident is there if
/// it was there or a rule was linked to it; it is disclosed if it was
/// there and disclosed; its rules are those it had and those linked to it.
pub proof fn law_incident_records(
    incidents: Map<u128, IncidentView>,
    all: Seq<(IncidentId, RuleId)>,
    key: u128,
    rule_id: RuleId,
)
    ensures
        link_rules(incidents, all).contains_key(key) <==> incidents.contains_key(key) || touches(
            all,
            key,
        ),
        link_rules(incidents, all).contains_key(key) ==> {
            let after = link_rules(incidents, all)[key];
            &&& after.is_disclosed == (incidents.contains_key(key) && incidents[key].is_disclosed)
            &&& after.rule_ids.contains(rule_id) <==> (incidents.contains_key(key)
                && incidents[key].rule_ids.contains(rule_id)) || gains(all, key, rule_id)
        },
    decreases all.len(),
{
    if all.len() > 0 {
        let head = all.drop_last();
        let last = all.len() - 1;
        assert(all[last] == all.last());
        law_incident_records(incidents, head, key, rule_id);
        if touches(head, key) {
            let k = choose|k: int| 0 <= k < head.len() && (#[trigger] head[k]).0.0 == key;
            assert(all[k] == head[k]);
        }
        if gains(head, key, rule_id) {
            let k = choose|k: int|
                0 <= k < head.len() && #[trigger] head[k] == (IncidentId(key), rule_id);
            assert(all[k] == head[k]);
        }
        if touches(all, key) && all.last().0.0 != key {
            let k = choose|k: int| 0 <= k < all.len() && (#[trigger] all[k]).0.0 == key;
            assert(head[k] == all[k]);
        }
        if gains(all, key, rule_id) && all.last() != (IncidentId(key), rule_id) {
            let k = choose|k: int|
                0 <= k < all.len() && #[trigger] all[k] == (IncidentId(key), rule_id);
            assert(head[k] == all[k]);
        }
    }
}

/// Linking never takes a rule from an incident, never discloses one and
/// never hides one: an incident that was there keeps its flag and its
/// rules, and may gain some.
pub proof fn law_incidents_only_grow(
    incidents: Map<u128, IncidentView>,
    all: Seq<(IncidentId, RuleId)>,
    key: u128,
)
    requires
        incidents.contains_key(key),
    ensures
        link_rules(incidents, all).contains_key(key),
        link_rules(incidents, all)[key].is_disclosed == incidents[key].is_disclosed,
        incidents[key].rule_ids.subset_of(link_rules(incidents, all)[key].rule_ids),
    decreases all.len(),
{
    if all.len() > 0 {
        law_incidents_only_grow(incidents, all.drop_last(), key);
    }
}

/// A success moves the store on by exactly one version, and the new
/// configuration holds the rules in the order of the submission, active
/// since the time given. No earlier configuration changes.
pub proof fn law_version_increases_by_one(
    before: StoreView,
    input: api::InputConfig,
    time: Timestamp,
    ids: Seq<RuleId>,
)
    requires
        not_ready(before) is None,
    ensures
        ({
            let after = store_after(before, input, time, ids);
            let next = before.version->0 + 1;
            &&& after.version == Some(next as u64)
            &&& after.configs.dom() == before.configs.dom().insert(next as u64)
            &&& after.configs[next as u64] == (ConfigView {
                schema_version: input.schema_version,
                active_since: time,
                rule_ids: ids,
            })
            &&& forall|v: Version|
                before.configs.contains_key(v) && v != next ==> after.configs[v]
                    == before.configs[v]
        }),
{
}

/// Before the first version nothing can be added: a valid submission ends
/// in the internal error that says so, any submission ends in an error,
/// and the store stays as it was.
pub proof fn law_no_version_no_success(
    before: StoreView,
    input: api::InputConfig,
    time: Timestamp,
    result: Result<(), AddConfigError>,
    after: StoreView,
)
    requires
        adds_config(before, input, time, result, after),
        before.version is None,
    ensures
        result is Err,
        after == before,
        accepts(input) ==> result == Err::<(), AddConfigError>(
            AddConfigError::Internal(InternalError::NoVersion),
        ),
{
    if accepts(input) {
        match result {
            Err(AddConfigError::InvalidInputConfig(error)) => {
                crate::validate::lemma_one_verdict(input, error, error);
            },
            _ => {},
        }
    }
}

/// A failed call changes nothing.
pub proof fn law_failure_changes_nothing(
    before: StoreView,
    input: api::InputConfig,
    time: Timestamp,
    result: Result<(), AddConfigError>,
    after: StoreView,
)
    requires
        adds_config(before, input, time, result, after),
        result is Err,
    ensures
        after == before,
{
}

/// A submission with a new rule of a disclosed incident cannot succeed,
/// and leaves the store as it was.
pub proof fn law_disclosed_incident_aborts(
    before: StoreView,
    input: api::InputConfig,
    time: Timestamp,
    result: Result<(), AddConfigError>,
    after: StoreView,
    index: int,
)
    requires
        adds_config(before, input, time, result, after),
        0 <= index < input.rules@.len(),
        !is_known(current_rules(before), parsed_rules(input.rules@)[index]),
        disclosed(before, parsed_rules(input.rules@)[index].incident_id),
    ensures
        result is Err,
        after == before,
{
    if result is Ok {
        let ids = choose|ids: Seq<RuleId>|
            may_assign(before, input, ids) && after == #[trigger] store_after(
                before,
                input,
                time,
                ids,
            );
        assert(assigned(
            before,
            current_rules(before),
            current_ids(before),
            parsed_rules(input.rules@)[index],
            ids[index],
        ));
    }
}

/// A rule that the next configuration drops stays stored, as it was but
/// for the version that dropped it; every other rule that was stored stays
/// exactly as it was.
pub proof fn law_only_dropped_rules_change(
    before: StoreView,
    input: api::InputConfig,
    time: Timestamp,
    ids: Seq<RuleId>,
    id: RuleId,
)
    requires
        not_ready(before) is None,
        may_assign(before, input, ids),
        before.rules.contains_key(id.0),
    ensures
        ({
            let after = store_after(before, input, time, ids);
            let next = (before.version->0 + 1) as u64;
            &&& after.rules.contains_key(id.0)
            &&& after.rules[id.0] == (if current_ids(before).contains(id) && !ids.contains(id) {
                before.rules[id.0].removed_in(next)
            } else {
                before.rules[id.0]
            })
        }),
{
    let next = (before.version->0 + 1) as u64;
    let current = current_ids(before);
    let known = current_rules(before);
    let rules = parsed_rules(input.rules@);
    let removed = dropped(current, ids);
    let new_rules = pending(known, rules, ids, next);
    lemma_all_stored(before.rules, current);
    assert forall|k: int| 0 <= k < removed.len() implies before.rules.contains_key(
        (#[trigger] removed[k]).0,
    ) by {
        lemma_dropped(current, ids, removed[k]);
        let at = choose|at: int| 0 <= at < current.len() && current[at] == removed[k];
        assert(before.rules.contains_key(current[at].0));
    }
    lemma_mark_removed(before.rules, removed, next, id.0);
    lemma_dropped(current, ids, id);
    assert forall|k: int| 0 <= k < new_rules.len() implies (#[trigger] new_rules[k]).0.0
        != id.0 by {
        lemma_pending(known, rules, ids, next, k);
        let i = choose|i: int|
            0 <= i < rules.len() && !is_known(known, rules[i]) && new_rules[k] == (
                #[trigger] ids[i],
                fresh_rule(rules[i], next),
            );
        assert(assigned(before, known, current, rules[i], ids[i]));
    }
    lemma_insert_rules(mark_removed(before.rules, removed, next), new_rules, id.0);
}

/// The audit trail of a stored rule: what was submitted never changes, nor
/// the version that added the rule, nor the time of its disclosure; the
/// version that dropped it, once set, stays; and a rule that is dropped
/// now is dropped by the new version, which comes after the one that added
/// it where the store has no rule from a version yet to come.
pub proof fn law_audit_trail(
    before: StoreView,
    input: api::InputConfig,
    time: Timestamp,
    ids: Seq<RuleId>,
    id: RuleId,
)
    requires
        not_ready(before) is None,
        may_assign(before, input, ids),
        before.rules.contains_key(id.0),
    ensures
        ({
            let old_rule = before.rules[id.0];
            let new_rule = store_after(before, input, time, ids).rules[id.0];
            &&& new_rule.input() == old_rule.input()
            &&& new_rule.added_in_version == old_rule.added_in_version
            &&& new_rule.disclosed_at == old_rule.disclosed_at
            &&& old_rule.removed_in_version is Some ==> new_rule.removed_in_version
                == old_rule.removed_in_version
            &&& old_rule.is_active() && !new_rule.is_active() ==> {
                &&& new_rule.removed_in_version == Some((before.version->0 + 1) as u64)
                &&& old_rule.added_in_version <= before.version->0
                    ==> old_rule.added_in_version < new_rule.removed_in_version->0
            }
        }),
{
    law_only_dropped_rules_change(before, input, time, ids, id);
    let current = current_ids(before);
    lemma_all_stored(before.rules, current);
    if current.contains(id) {
        let at = choose|at: int| 0 <= at < current.len() && current[at] == id;
        assert(before.rules[current[at].0].is_active());
    }
}

/// No rule of a submission gets the identifier of a rule that was dropped:
/// a rule that was stored once and has been dropped gets, when it is
/// submitted again, an identifier other than the one it had.
pub proof fn law_dropped_rule_gets_new_id(
    before: StoreView,
    input: api::InputConfig,
    ids: Seq<RuleId>,
    index: int,
    former: RuleId,
)
    requires
        not_ready(before) is None,
        may_assign(before, input, ids),
        0 <= index < input.rules@.len(),
        before.rules.contains_key(former.0),
        !before.rules[former.0].is_active(),
    ensures
        ids[index] != former,
{
    let current = current_ids(before);
    let known = current_rules(before);
    let rules = parsed_rules(input.rules@);
    lemma_all_stored(before.rules, current);
    assert(assigned(before, known, current, rules[index], ids[index]));
    if is_known(known, rules[index]) {
        let j = first_match(known, rules[index]);
        let found = choose|j: int| matches_at(known, rules[index], j);
        lemma_first_exists(known, rules[index], found);
        assert(before.rules[current[j].0].is_active());
    }
}

/// Where a rule stands somewhere, it stands somewhere first.
pub proof fn lemma_first_exists(known: Seq<InputRuleView>, rule: InputRuleView, j: int)
    requires
        matches_at(known, rule, j),
    ensures
        is_first_match(known, rule, first_match(known, rule)),
    decreases j,
{
    if forall|k: int| 0 <= k < j ==> !matches_at(known, rule, k) {
        assert(is_first_match(known, rule, j));
    } else {
        let k = choose|k: int| 0 <= k < j && matches_at(known, rule, k);
        lemma_first_exists(known, rule, k);
    }
}

/// Whether the store links every rule of its current configuration to the
/// incident of the rule.
pub open spec fn links_current_rules(store: StoreView) -> bool {
    forall|i: int|
        0 <= i < current_ids(store).len() ==> {
            let id = #[trigger] current_ids(store)[i];
            let incident = store.rules[id.0].incident_id;
            &&& store.incidents.contains_key(incident.0)
            &&& store.incidents[incident.0].rule_ids.contains(id)
        }
}

/// Whether some rule of the submission stands at place `j`.
pub open spec fn takes(places: Seq<int>, j: int) -> bool {
    exists|i: int| 0 <= i < places.len() && #[trigger] places[i] == j
}

/// A submission that holds the rules of the current configuration, each
/// once and in any order, keeps their identifiers: the rule at a place of
/// the submission has the identifier of the place of the current
/// configuration where it stood. No rule record changes, and no incident
/// record either where the store links the rules of its current
/// configuration to their incidents.
///
/// `places` gives for each rule of the submission its place in the current
/// configuration; every place is taken.
pub proof fn law_reordering_keeps_ids(
    before: StoreView,
    input: api::InputConfig,
    time: Timestamp,
    ids: Seq<RuleId>,
    places: Seq<int>,
)
    requires
        accepts(input),
        not_ready(before) is None,
        may_assign(before, input, ids),
        places.len() == input.rules@.len(),
        forall|i: int|
            0 <= i < places.len() ==> matches_at(
                current_rules(before),
                parsed_rules(input.rules@)[i],
                #[trigger] places[i],
            ),
        forall|j: int| 0 <= j < current_rules(before).len() ==> #[trigger] takes(places, j),
    ensures
        !has_new_rule(before, input),
        forall|i: int| 0 <= i < ids.len() ==> #[trigger] ids[i] == current_ids(before)[places[i]],
        store_after(before, input, time, ids).rules == before.rules,
        links_current_rules(before) ==> store_after(before, input, time, ids).incidents
            == before.incidents,
{
    let next = (before.version->0 + 1) as u64;
    let current = current_ids(before);
    let known = current_rules(before);
    let rules = parsed_rules(input.rules@);
    assert forall|i: int| 0 <= i < rules.len() implies is_known(known, #[trigger] rules[i])
        && first_match(known, rules[i]) == places[i] by {
        assert(matches_at(known, rules[i], places[i]));
        assert forall|k: int| 0 <= k < places[i] implies !matches_at(known, rules[i], k) by {
            assert(takes(places, k));
            let other = choose|other: int| 0 <= other < places.len() && places[other] == k;
            assert(matches_at(known, rules[other], places[other]));
            if matches_at(known, rules[i], k) {
                if other < i {
                    assert(same_rule(input.rules@, other, i));
                } else if i < other {
                    assert(same_rule(input.rules@, i, other));
                }
            }
        }
        lemma_first_match(known, rules[i], places[i]);
    }
    assert forall|i: int| 0 <= i < ids.len() implies #[trigger] ids[i] == current[places[i]] by {
        assert(assigned(before, known, current, rules[i], ids[i]));
    }
    lemma_nothing_pending(known, rules, ids, next);
    let removed = dropped(current, ids);
    if removed.len() > 0 {
        let id = removed[0];
        lemma_dropped(current, ids, id);
        let at = choose|at: int| 0 <= at < current.len() && current[at] == id;
        assert(takes(places, at));
        let i = choose|i: int| 0 <= i < places.len() && places[i] == at;
        assert(ids[i] == id);
    }
    assert(removed =~= Seq::<RuleId>::empty());
    if links_current_rules(before) {
        lemma_all_stored(before.rules, current);
        let all = links(rules, ids);
        assert forall|k: int| 0 <= k < all.len() implies {
            &&& before.incidents.contains_key((#[trigger] all[k]).0.0)
            &&& before.incidents[all[k].0.0].rule_ids.contains(all[k].1)
        } by {
            assert(matches_at(known, rules[k], places[k]));
            assert(known[places[k]] == before.rules[current[places[k]].0].input());
            assert(ids[k] == current[places[k]]);
        }
        lemma_links_present(before.incidents, all);
    }
}

/// Submitting the current configuration once more, rule for rule and in
/// the same order, whatever the bytes that encode the payloads, changes no
/// rule and no incident: the store gains one version, with the identifiers
/// of the current one, and that is all.
///
/// The store is taken to link every rule of its current configuration to
/// the incident of the rule.
pub proof fn law_resubmission_changes_no_record(
    before: StoreView,
    input: api::InputConfig,
    time: Timestamp,
    ids: Seq<RuleId>,
)
    requires
        accepts(input),
        not_ready(before) is None,
        may_assign(before, input, ids),
        input.rules@.len() == current_rules(before).len(),
        forall|i: int|
            0 <= i < input.rules@.len() ==> (#[trigger] parsed_rules(input.rules@)[i]).content()
                == current_rules(before)[i].content(),
        links_current_rules(before),
    ensures
        !has_new_rule(before, input),
        ids == current_ids(before),
        ({
            let after = store_after(before, input, time, ids);
            let next = (before.version->0 + 1) as u64;
            &&& after.rules == before.rules
            &&& after.incidents == before.incidents
            &&& after.version == Some(next)
            &&& after.configs == before.configs.insert(
                next,
                ConfigView {
                    schema_version: input.schema_version,
                    active_since: time,
                    rule_ids: current_ids(before),
                },
            )
        }),
{
    let current = current_ids(before);
    let known = current_rules(before);
    let rules = parsed_rules(input.rules@);
    let places = Seq::new(rules.len(), |i: int| i);
    assert forall|j: int| 0 <= j < known.len() implies #[trigger] takes(places, j) by {
        assert(places[j] == j);
    }
    law_reordering_keeps_ids(before, input, time, ids, places);
    assert(ids =~= current);
}

/// A record that is written is stored, and what is stored under its
/// identifier is a record written under that identifier.
pub proof fn lemma_inserted(
    rules: Map<u128, RuleView>,
    new_rules: Seq<(RuleId, RuleView)>,
    at: int,
)
    requires
        0 <= at < new_rules.len(),
    ensures
        insert_rules(rules, new_rules).contains_key(new_rules[at].0.0),
        exists|k: int|
            0 <= k < new_rules.len() && (#[trigger] new_rules[k]).0 == new_rules[at].0
                && insert_rules(rules, new_rules)[new_rules[at].0.0] == new_rules[k].1,
    decreases new_rules.len(),
{
    let head = new_rules.drop_last();
    let last = new_rules.len() - 1;
    assert(new_rules[last] == new_rules.last());
    if new_rules.last().0 == new_rules[at].0 {
    } else {
        assert(head[at] == new_rules[at]);
        lemma_inserted(rules, head, at);
        let k = choose|k: int|
            0 <= k < head.len() && (#[trigger] head[k]).0 == head[at].0 && insert_rules(
                rules,
                head,
            )[head[at].0.0] == head[k].1;
        assert(new_rules[k] == head[k]);
    }
}

/// The record of every new rule of the submission is pending.
pub proof fn lemma_pending_has(
    known: Seq<InputRuleView>,
    rules: Seq<InputRuleView>,
    ids: Seq<RuleId>,
    version: Version,
    i: int,
)
    requires
        ids.len() == rules.len(),
        0 <= i < rules.len(),
        !is_known(known, rules[i]),
    ensures
        exists|k: int|
            0 <= k < pending(known, rules, ids, version).len() && #[trigger] pending(
                known,
                rules,
                ids,
                version,
            )[k] == (ids[i], fresh_rule(rules[i], version)),
    decreases rules.len(),
{
    let before = pending(known, rules.drop_last(), ids.drop_last(), version);
    let all = pending(known, rules, ids, version);
    if i == rules.len() - 1 {
        assert(rules[i] == rules.last());
        assert(ids[i] == ids.last());
        assert(all[before.len() as int] == (ids[i], fresh_rule(rules[i], version)));
    } else {
        assert(rules.drop_last()[i] == rules[i]);
        assert(ids.drop_last()[i] == ids[i]);
        lemma_pending_has(known, rules.drop_last(), ids.drop_last(), version, i);
        let k = choose|k: int|
            0 <= k < before.len() && #[trigger] before[k] == (
                ids.drop_last()[i],
                fresh_rule(rules.drop_last()[i], version),
            );
        assert(all[k] == before[k]);
    }
}

/// Where every identifier has a rule that is stored and not dropped, the
/// active rules are as many as the identifiers.
pub proof fn lemma_all_active(rules: Map<u128, RuleView>, ids: Seq<RuleId>)
    requires
        forall|k: int|
            0 <= k < ids.len() ==> rules.contains_key((#[trigger] ids[k]).0) && rules[ids[k].0].is_active(),
    ensures
        active_rules(rules, ids).len() == ids.len(),
    decreases ids.len(),
{
    if ids.len() > 0 {
        assert forall|k: int| 0 <= k < ids.drop_last().len() implies rules.contains_key(
            (#[trigger] ids.drop_last()[k]).0,
        ) && rules[ids.drop_last()[k].0].is_active() by {
            assert(ids.drop_last()[k] == ids[k]);
        }
        lemma_all_active(rules, ids.drop_last());
        assert(ids[ids.len() - 1] == ids.last());
    }
}

/// Every rule that is linked is, afterwards, a rule of its incident.
pub proof fn lemma_linked(
    incidents: Map<u128, IncidentView>,
    all: Seq<(IncidentId, RuleId)>,
    at: int,
)
    requires
        0 <= at < all.len(),
    ensures
        link_rules(incidents, all).contains_key(all[at].0.0),
        link_rules(incidents, all)[all[at].0.0].rule_ids.contains(all[at].1),
    decreases all.len(),
{
    let last = all.len() - 1;
    assert(all[last] == all.last());
    if at < last {
        assert(all.drop_last()[at] == all[at]);
        lemma_linked(incidents, all.drop_last(), at);
    }
}

/// What the store holds, after a success, under the identifier that stands
/// for the rule at `index`: a rule that no version has dropped; for a known
/// rule the record that was there, for a new one the fresh record of a new
/// rule with that identifier.
pub proof fn lemma_rule_after(
    before: StoreView,
    input: api::InputConfig,
    time: Timestamp,
    ids: Seq<RuleId>,
    index: int,
)
    requires
        not_ready(before) is None,
        may_assign(before, input, ids),
        0 <= index < ids.len(),
    ensures
        ({
            let after = store_after(before, input, time, ids);
            let next = (before.version->0 + 1) as u64;
            let rules = parsed_rules(input.rules@);
            let known = current_rules(before);
            let id = ids[index];
            &&& after.rules.contains_key(id.0)
            &&& after.rules[id.0].is_active()
            &&& is_known(known, rules[index]) ==> {
                &&& before.rules.contains_key(id.0)
                &&& after.rules[id.0] == before.rules[id.0]
                &&& before.rules[id.0].input().content() == rules[index].content()
            }
            &&& !is_known(known, rules[index]) ==> exists|other: int|
                0 <= other < rules.len() && !is_known(known, rules[other]) && #[trigger] ids[other]
                    == id && after.rules[id.0] == fresh_rule(rules[other], next)
        }),
{
    let next = (before.version->0 + 1) as u64;
    let current = current_ids(before);
    let known = current_rules(before);
    let rules = parsed_rules(input.rules@);
    let id = ids[index];
    lemma_all_stored(before.rules, current);
    assert(assigned(before, known, current, rules[index], ids[index]));
    if is_known(known, rules[index]) {
        let found = choose|j: int| matches_at(known, rules[index], j);
        lemma_first_exists(known, rules[index], found);
        let j = first_match(known, rules[index]);
        assert(id == current[j]);
        assert(before.rules.contains_key(current[j].0));
        law_only_dropped_rules_change(before, input, time, ids, id);
    } else {
        let marked = mark_removed(before.rules, dropped(current, ids), next);
        let new_rules = pending(known, rules, ids, next);
        lemma_pending_has(known, rules, ids, next, index);
        let at = choose|k: int|
            0 <= k < new_rules.len() && #[trigger] new_rules[k] == (
                ids[index],
                fresh_rule(rules[index], next),
            );
        lemma_inserted(marked, new_rules, at);
        let k = choose|k: int|
            0 <= k < new_rules.len() && (#[trigger] new_rules[k]).0 == new_rules[at].0
                && insert_rules(marked, new_rules)[new_rules[at].0.0] == new_rules[k].1;
        lemma_pending(known, rules, ids, next, k);
        let other = choose|i: int|
            0 <= i < rules.len() && !is_known(known, rules[i]) && new_rules[k] == (
                #[trigger] ids[i],
                fresh_rule(rules[i], next),
            );
        assert(ids[other] == id);
    }
}

/// Whether `key` is of the identifier that stands for a new rule of the
/// submission.
pub open spec fn is_new_id(
    store: StoreView,
    input: api::InputConfig,
    ids: Seq<RuleId>,
    key: u128,
) -> bool {
    exists|i: int|
        0 <= i < ids.len() && !is_known(current_rules(store), parsed_rules(input.rules@)[i])
            && (#[trigger] ids[i]).0 == key
}

/// After a success the store holds the rules it held and the new rules of
/// the submission, and no other.
pub proof fn law_no_other_rules(
    before: StoreView,
    input: api::InputConfig,
    time: Timestamp,
    ids: Seq<RuleId>,
    key: u128,
)
    requires
        not_ready(before) is None,
        may_assign(before, input, ids),
    ensures
        store_after(before, input, time, ids).rules.contains_key(key)
            <==> before.rules.contains_key(key) || is_new_id(before, input, ids, key),
{
    let next = (before.version->0 + 1) as u64;
    let current = current_ids(before);
    let known = current_rules(before);
    let rules = parsed_rules(input.rules@);
    let removed = dropped(current, ids);
    let marked = mark_removed(before.rules, removed, next);
    let new_rules = pending(known, rules, ids, next);
    if is_new_id(before, input, ids, key) {
        let i = choose|i: int|
            0 <= i < ids.len() && !is_known(known, rules[i]) && (#[trigger] ids[i]).0 == key;
        lemma_rule_after(before, input, time, ids, i);
    } else {
        lemma_all_stored(before.rules, current);
        assert forall|k: int| 0 <= k < removed.len() implies before.rules.contains_key(
            (#[trigger] removed[k]).0,
        ) by {
            lemma_dropped(current, ids, removed[k]);
            let at = choose|at: int| 0 <= at < current.len() && current[at] == removed[k];
            assert(before.rules.contains_key(current[at].0));
        }
        lemma_mark_removed(before.rules, removed, next, key);
        assert forall|k: int| 0 <= k < new_rules.len() implies (#[trigger] new_rules[k]).0.0
            != key by {
            lemma_pending(known, rules, ids, next, k);
            let i = choose|i: int|
                0 <= i < rules.len() && !is_known(known, rules[i]) && new_rules[k] == (
                    #[trigger] ids[i],
                    fresh_rule(rules[i], next),
                );
            assert(ids[i].0 != key);
        }
        lemma_insert_rules(marked, new_rules, key);
    }
}

/// A store that has taken a version can take the next: its current
/// configuration is the one submitted, and every rule of it is stored and
/// not dropped. Only the last version there is cannot be followed.
pub proof fn law_store_stays_ready(
    before: StoreView,
    input: api::InputConfig,
    time: Timestamp,
    ids: Seq<RuleId>,
)
    requires
        not_ready(before) is None,
        may_assign(before, input, ids),
        before.version->0 + 1 < u64::MAX,
    ensures
        not_ready(store_after(before, input, time, ids)) is None,
        current_ids(store_after(before, input, time, ids)) == ids,
{
    let after = store_after(before, input, time, ids);
    assert forall|k: int| 0 <= k < ids.len() implies after.rules.contains_key(
        (#[trigger] ids[k]).0,
    ) && after.rules[ids[k].0].is_active() by {
        lemma_rule_after(before, input, time, ids, k);
    }
    lemma_all_active(after.rules, ids);
}

/// Whether the new rules of the submission have identifiers of their own.
/// Two draws from a sound random source give the same 128 bits once in
/// never; nothing tests for it.
pub open spec fn new_ids_differ(store: StoreView, input: api::InputConfig, ids: Seq<RuleId>)
    -> bool {
    let rules = parsed_rules(input.rules@);
    let known = current_rules(store);
    forall|i: int, j: int|
        0 <= i < j < rules.len() && !is_known(known, rules[i]) && !is_known(known, rules[j])
            ==> #[trigger] ids[i] != #[trigger] ids[j]
}

/// After a success the rules of the current configuration are the rules
/// submitted, in the order submitted, and each is linked to its incident.
pub proof fn law_current_rules_are_submitted(
    before: StoreView,
    input: api::InputConfig,
    time: Timestamp,
    ids: Seq<RuleId>,
)
    requires
        not_ready(before) is None,
        may_assign(before, input, ids),
        new_ids_differ(before, input, ids),
        before.version->0 + 1 < u64::MAX,
    ensures
        ({
            let after = store_after(before, input, time, ids);
            let rules = parsed_rules(input.rules@);
            &&& current_rules(after).len() == rules.len()
            &&& forall|i: int|
                0 <= i < rules.len() ==> (#[trigger] current_rules(after)[i]).content()
                    == rules[i].content()
            &&& links_current_rules(after)
        }),
{
    let after = store_after(before, input, time, ids);
    let rules = parsed_rules(input.rules@);
    let known = current_rules(before);
    let next = (before.version->0 + 1) as u64;
    law_store_stays_ready(before, input, time, ids);
    lemma_all_stored(after.rules, ids);
    assert forall|i: int| 0 <= i < rules.len() implies {
        &&& (#[trigger] current_rules(after)[i]).content() == rules[i].content()
        &&& after.rules[ids[i].0].incident_id == rules[i].incident_id
    } by {
        lemma_rule_after(before, input, time, ids, i);
        if !is_known(known, rules[i]) {
            let other = choose|other: int|
                0 <= other < rules.len() && !is_known(known, rules[other]) && #[trigger] ids[other]
                    == ids[i] && after.rules[ids[i].0] == fresh_rule(rules[other], next);
            if other < i {
                assert(ids[other] != ids[i]);
            } else if i < other {
                assert(ids[i] != ids[other]);
            }
        }
    }
    let all = links(rules, ids);
    assert forall|i: int| 0 <= i < current_ids(after).len() implies {
        let id = #[trigger] current_ids(after)[i];
        let incident = after.rules[id.0].incident_id;
        &&& after.incidents.contains_key(incident.0)
        &&& after.incidents[incident.0].rule_ids.contains(id)
    } by {
        assert(current_rules(after)[i].content() == rules[i].content());
        lemma_linked(before.incidents, all, i);
        assert(all[i] == (rules[i].incident_id, ids[i]));
    }
}

} // verus!
