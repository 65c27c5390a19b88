//! Validation of a submission: every rule well formed, no rule twice.

use vstd::prelude::*;
use crate::api;
use crate::ident::{uuid_of_text, IncidentId};
use crate::json::{is_json, json_document};
use crate::types::{InputConfig, InputConfigError, InputRule, InputRuleView, rule_views};

verus! {

/// Whether the incident of a submitted rule is the text of a UUID.
pub open spec fn incident_ok(rule: api::InputRule) -> bool {
    uuid_of_text(rule.incident_id@) is Some
}

/// Whether the payload of a submitted rule is a JSON document.
pub open spec fn payload_ok(rule: api::InputRule) -> bool {
    json_document(rule.rule_raw@) is Some
}

/// Whether a submitted rule is well formed.
pub open spec fn entry_ok(rule: api::InputRule) -> bool {
    incident_ok(rule) && payload_ok(rule)
}

/// A well-formed submitted rule, read.
pub open spec fn parsed_rule(rule: api::InputRule) -> InputRuleView {
    InputRuleView {
        incident_id: IncidentId(uuid_of_text(rule.incident_id@)->0),
        rule_raw: rule.rule_raw@,
        description: rule.description@,
    }
}

/// The rules of a submission, read.
pub open spec fn parsed_rules(rules: Seq<api::InputRule>) -> Seq<InputRuleView> {
    Seq::new(rules.len(), |i: int| parsed_rule(rules[i]))
}

/// Whether the rules at `i` and `j` are the same rule.
pub open spec fn same_rule(rules: Seq<api::InputRule>, i: int, j: int) -> bool {
    parsed_rule(rules[i]).content() == parsed_rule(rules[j]).content()
}

/// Whether every rule before `end` is well formed.
pub open spec fn entries_ok(rules: Seq<api::InputRule>, end: int) -> bool {
    forall|k: int| 0 <= k < end ==> entry_ok(#[trigger] rules[k])
}

/// Whether the pair `(a, b)` comes before the pair `(i, j)` where pairs are
/// tried with the lower index first.
pub open spec fn pair_before(a: int, b: int, i: int, j: int) -> bool {
    a < i || (a == i && b < j)
}

/// Whether no pair of rules before the pair `(i, j)` is the same rule.
pub open spec fn distinct_before(rules: Seq<api::InputRule>, i: int, j: int) -> bool {
    forall|a: int, b: int|
        0 <= a < b < rules.len() && pair_before(a, b, i, j) ==> !#[trigger] same_rule(rules, a, b)
}

/// Whether a submission is valid: every rule well formed, no rule twice.
pub open spec fn accepts(input: api::InputConfig) -> bool {
    &&& entries_ok(input.rules@, input.rules@.len() as int)
    &&& distinct_before(input.rules@, input.rules@.len() as int, 0)
}

/// Whether `error` is what an invalid submission is refused with: the first
/// rule that is not well formed, its incident looked at before its payload;
/// else the first pair of rules that are the same rule.
pub open spec fn rejects(input: api::InputConfig, error: InputConfigError) -> bool {
    let rules = input.rules@;
    match error {
        InputConfigError::InvalidIncidentUuidFormat(i) => {
            &&& i < rules.len()
            &&& entries_ok(rules, i as int)
            &&& !incident_ok(rules[i as int])
        },
        InputConfigError::InvalidRuleJsonEncoding(i) => {
            &&& i < rules.len()
            &&& entries_ok(rules, i as int)
            &&& incident_ok(rules[i as int])
            &&& !payload_ok(rules[i as int])
        },
        InputConfigError::DuplicateRules(i, j) => {
            &&& entries_ok(rules, rules.len() as int)
            &&& i < j < rules.len()
            &&& same_rule(rules, i as int, j as int)
            &&& distinct_before(rules, i as int, j as int)
        },
    }
}

/// Checks a submission and reads it. The result is `Ok` exactly for a valid
/// submission; an invalid one is refused with the one error that `rejects`
/// allows.
pub fn validate(input: &api::InputConfig) -> (r: Result<InputConfig, InputConfigError>)
    ensures
        match r {
            Ok(config) => {
                &&& accepts(*input)
                &&& config.schema_version == input.schema_version
                &&& rule_views(config.rules@) == parsed_rules(input.rules@)
            },
            Err(error) => rejects(*input, error),
        },
{
    let n = input.rules.len();
    let mut rules: Vec<InputRule> = Vec::new();
    let mut i: usize = 0;
    while i < n
        invariant
            n == input.rules@.len(),
            i <= n,
            entries_ok(input.rules@, i as int),
            rules@.len() == i,
            forall|k: int| 0 <= k < i ==> (#[trigger] rules@[k])@ == parsed_rule(input.rules@[k]),
        decreases n - i,
    {
        let entry = &input.rules[i];
        let incident_id = match IncidentId::parse(entry.incident_id.as_str()) {
            Some(id) => id,
            None => {
                return Err(InputConfigError::InvalidIncidentUuidFormat(i));
            },
        };
        if !is_json(&entry.rule_raw) {
            return Err(InputConfigError::InvalidRuleJsonEncoding(i));
        }
        rules.push(
            InputRule {
                incident_id,
                rule_raw: entry.rule_raw.clone(),
                description: entry.description.clone(),
            },
        );
        i += 1;
    }
    assert(rule_views(rules@) =~= parsed_rules(input.rules@));
    let mut a: usize = 0;
    while a < n
        invariant
            n == input.rules@.len(),
            a <= n,
            rules@.len() == n,
            entries_ok(input.rules@, n as int),
            forall|k: int| 0 <= k < n ==> (#[trigger] rules@[k])@ == parsed_rule(input.rules@[k]),
            distinct_before(input.rules@, a as int, 0),
        decreases n - a,
    {
        let mut b: usize = a + 1;
        while b < n
            invariant
                n == input.rules@.len(),
                a < b <= n,
                rules@.len() == n,
                entries_ok(input.rules@, n as int),
                forall|k: int|
                    0 <= k < n ==> (#[trigger] rules@[k])@ == parsed_rule(input.rules@[k]),
                distinct_before(input.rules@, a as int, b as int),
            decreases n - b,
        {
            if rules[a].same_content(&rules[b]) {
                assert(same_rule(input.rules@, a as int, b as int));
                return Err(InputConfigError::DuplicateRules(a, b));
            }
            assert(!same_rule(input.rules@, a as int, b as int));
            b += 1;
        }
        a += 1;
    }
    Ok(InputConfig { schema_version: input.schema_version, rules })
}

/// A submission is valid or refused, never both, and a refused one is
/// refused with one error only.
pub proof fn lemma_one_verdict(
    input: api::InputConfig,
    first: InputConfigError,
    second: InputConfigError,
)
    requires
        rejects(input, first),
    ensures
        !accepts(input),
        rejects(input, second) ==> first == second,
{
    let rules = input.rules@;
    match first {
        InputConfigError::DuplicateRules(i, j) => {
            assert(same_rule(rules, i as int, j as int));
        },
        InputConfigError::InvalidIncidentUuidFormat(i) => {
            assert(!entry_ok(rules[i as int]));
        },
        InputConfigError::InvalidRuleJsonEncoding(i) => {
            assert(!entry_ok(rules[i as int]));
        },
    }
    if rejects(input, second) {
        match second {
            InputConfigError::DuplicateRules(i, j) => {
                assert(same_rule(rules, i as int, j as int));
            },
            InputConfigError::InvalidIncidentUuidFormat(i) => {
                assert(!entry_ok(rules[i as int]));
            },
            InputConfigError::InvalidRuleJsonEncoding(i) => {
                assert(!entry_ok(rules[i as int]));
            },
        }
    }
}

} // verus!
