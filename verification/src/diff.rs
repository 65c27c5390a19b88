//! Telling the rules of a submission apart: which are known from the current
//! configuration, which are new, and which rules the submission drops.

use vstd::prelude::*;
use crate::ident::{IncidentId, RuleId};
use crate::state::{CanisterApi, StoreView};
use crate::storage::{contains_id, fresh_rule, RuleView, StorableRule};
use crate::types::{
    AddConfigError, InputRule, InputRuleView, InternalError, Version, rule_views,
};

verus! {

/// Whether the rule at `j` of `known` is the rule `rule`.
pub open spec fn matches_at(known: Seq<InputRuleView>, rule: InputRuleView, j: int) -> bool {
    0 <= j < known.len() && known[j].content() == rule.content()
}

/// Whether `rule` is among `known`.
pub open spec fn is_known(known: Seq<InputRuleView>, rule: InputRuleView) -> bool {
    exists|j: int| matches_at(known, rule, j)
}

/// Whether `j` is the first place of `known` at which `rule` stands.
pub open spec fn is_first_match(known: Seq<InputRuleView>, rule: InputRuleView, j: int) -> bool {
    matches_at(known, rule, j) && forall|k: int| 0 <= k < j ==> !matches_at(known, rule, k)
}

/// The first place of `known` at which `rule` stands, where it is known.
pub open spec fn first_match(known: Seq<InputRuleView>, rule: InputRuleView) -> int {
    choose|j: int| is_first_match(known, rule, j)
}

/// There is one first place only.
pub proof fn lemma_first_match(known: Seq<InputRuleView>, rule: InputRuleView, j: int)
    requires
        is_first_match(known, rule, j),
    ensures
        is_known(known, rule),
        first_match(known, rule) == j,
{
    let found = first_match(known, rule);
    assert(is_first_match(known, rule, found));
    assert(matches_at(known, rule, j));
    if found < j {
        assert(!matches_at(known, rule, found));
    }
    if j < found {
        assert(!matches_at(known, rule, j));
    }
}

/// Looks for `rule` among `known`, at any place, and gives the first.
pub fn find_rule(known: &Vec<InputRule>, rule: &InputRule) -> (r: Option<usize>)
    ensures
        match r {
            Some(j) => {
                &&& j < known@.len()
                &&& is_known(rule_views(known@), rule@)
                &&& j == first_match(rule_views(known@), rule@)
            },
            None => !is_known(rule_views(known@), rule@),
        },
{
    let mut i: usize = 0;
    while i < known.len()
        invariant
            i <= known.len(),
            forall|k: int| 0 <= k < i ==> !matches_at(rule_views(known@), rule@, k),
        decreases known.len() - i,
    {
        if known[i].same_content(rule) {
            proof {
                assert(rule_views(known@)[i as int] == known@[i as int]@);
                lemma_first_match(rule_views(known@), rule@, i as int);
            }
            return Some(i);
        }
        assert(rule_views(known@)[i as int] == known@[i as int]@);
        i += 1;
    }
    None
}

/// Whether new rules can no longer be linked to the incident.
pub open spec fn disclosed(store: StoreView, incident_id: IncidentId) -> bool {
    store.incidents.contains_key(incident_id.0) && store.incidents[incident_id.0].is_disclosed
}

/// Why the new rule at `index` cannot be taken in with the identifier
/// drawn for it, `None` where it can: the draw failed, the identifier is
/// taken, or the incident of the rule is disclosed, looked at in this order.
pub open spec fn admission_error(
    store: StoreView,
    index: usize,
    rule: InputRuleView,
    drawn: Option<RuleId>,
) -> Option<AddConfigError> {
    match drawn {
        None => Some(AddConfigError::Internal(InternalError::RandomSource)),
        Some(id) => if store.rules.contains_key(id.0) {
            Some(AddConfigError::Internal(InternalError::IdCollision(id)))
        } else if disclosed(store, rule.incident_id) {
            Some(
                AddConfigError::LinkingRuleToDisclosedIncident {
                    index,
                    incident_id: rule.incident_id,
                },
            )
        } else {
            None
        },
    }
}

/// Decides on the new rule at `index`, given what the random source
/// returned for it: the record to store under the identifier drawn, or the
/// error that ends the call.
pub fn admit_new_rule<A: CanisterApi>(
    canister_api: &A,
    index: usize,
    rule: &InputRule,
    next_version: Version,
    drawn: Option<RuleId>,
) -> (r: Result<(RuleId, StorableRule), AddConfigError>)
    ensures
        match r {
            Ok((id, record)) => {
                &&& admission_error(canister_api.store(), index, rule@, drawn) is None
                &&& drawn == Some(id)
                &&& record@ == fresh_rule(rule@, next_version)
            },
            Err(error) => admission_error(canister_api.store(), index, rule@, drawn) == Some(
                error,
            ),
        },
{
    let rule_id = match drawn {
        Some(id) => id,
        None => {
            return Err(AddConfigError::Internal(InternalError::RandomSource));
        },
    };
    if canister_api.get_rule(&rule_id).is_some() {
        return Err(AddConfigError::Internal(InternalError::IdCollision(rule_id)));
    }
    if let Some(incident) = canister_api.get_incident(&rule.incident_id) {
        if incident.is_disclosed {
            return Err(
                AddConfigError::LinkingRuleToDisclosedIncident {
                    index,
                    incident_id: rule.incident_id,
                },
            );
        }
    }
    Ok((rule_id, StorableRule::introduce(rule, next_version)))
}

/// Whether `id` may stand for `rule` in the next configuration: the
/// identifier that the rule has in the current one where it is known, else
/// one that no stored rule has, and then the incident is not disclosed.
pub open spec fn assigned(
    store: StoreView,
    known: Seq<InputRuleView>,
    current_ids: Seq<RuleId>,
    rule: InputRuleView,
    id: RuleId,
) -> bool {
    if is_known(known, rule) {
        id == current_ids[first_match(known, rule)]
    } else {
        !store.rules.contains_key(id.0) && !disclosed(store, rule.incident_id)
    }
}

/// Whether `ids` may stand for `rules`, place by place.
pub open spec fn assigns(
    store: StoreView,
    known: Seq<InputRuleView>,
    current_ids: Seq<RuleId>,
    rules: Seq<InputRuleView>,
    ids: Seq<RuleId>,
) -> bool {
    &&& ids.len() == rules.len()
    &&& forall|i: int|
        0 <= i < rules.len() ==> assigned(store, known, current_ids, rules[i], #[trigger] ids[i])
}

/// The records of the new rules among `rules`, each under its identifier of
/// `ids`, in the order of the submission.
pub open spec fn pending(
    known: Seq<InputRuleView>,
    rules: Seq<InputRuleView>,
    ids: Seq<RuleId>,
    version: Version,
) -> Seq<(RuleId, RuleView)>
    decreases rules.len(),
{
    if rules.len() == 0 || ids.len() == 0 {
        Seq::empty()
    } else {
        let before = pending(known, rules.drop_last(), ids.drop_last(), version);
        if is_known(known, rules.last()) {
            before
        } else {
            before.push((ids.last(), fresh_rule(rules.last(), version)))
        }
    }
}

/// For each rule of the submission, its incident and its identifier.
pub open spec fn links(rules: Seq<InputRuleView>, ids: Seq<RuleId>) -> Seq<(IncidentId, RuleId)> {
    Seq::new(rules.len(), |i: int| (rules[i].incident_id, ids[i]))
}

/// The identifiers of `current_ids` that are not among `ids`, in order.
pub open spec fn dropped(current_ids: Seq<RuleId>, ids: Seq<RuleId>) -> Seq<RuleId>
    decreases current_ids.len(),
{
    if current_ids.len() == 0 {
        Seq::empty()
    } else {
        let before = dropped(current_ids.drop_last(), ids);
        if ids.contains(current_ids.last()) {
            before
        } else {
            before.push(current_ids.last())
        }
    }
}

/// The rules that the next configuration drops.
pub fn removed_ids(current_ids: &Vec<RuleId>, ids: &Vec<RuleId>) -> (removed: Vec<RuleId>)
    ensures
        removed@ == dropped(current_ids@, ids@),
        forall|k: int| 0 <= k < removed@.len() ==> current_ids@.contains(#[trigger] removed@[k]),
{
    let mut removed: Vec<RuleId> = Vec::new();
    let mut i: usize = 0;
    while i < current_ids.len()
        invariant
            i <= current_ids.len(),
            removed@ == dropped(current_ids@.take(i as int), ids@),
            forall|k: int|
                0 <= k < removed@.len() ==> current_ids@.contains(#[trigger] removed@[k]),
        decreases current_ids.len() - i,
    {
        proof {
            assert(current_ids@.take(i + 1).drop_last() == current_ids@.take(i as int));
            assert(current_ids@.take(i + 1).last() == current_ids@[i as int]);
        }
        if !contains_id(ids, current_ids[i]) {
            removed.push(current_ids[i]);
        }
        i += 1;
    }
    assert(current_ids@.take(i as int) == current_ids@);
    removed
}

} // verus!
