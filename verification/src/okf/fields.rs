//! Field-level rules on front-matter mappings: required fields, string
//! fields, actors, generation records, freshness and verification records.

use vstd::prelude::*;

use crate::okf::validate::{
    hash_shape, outcome, timestamp_shape, validate_hash, validate_timestamp,
};
use crate::okf::yaml::{deref_opt, field, is_map, items, str_field, Yaml};
use crate::text::{concat2, str_chars, str_eq};

verus! {

/// The first problem of two checks made in turn.
pub open spec fn or_else(a: Option<Seq<char>>, b: Option<Seq<char>>) -> Option<Seq<char>> {
    match a {
        Some(m) => Some(m),
        None => b,
    }
}

/// The problem with a timestamp, if any.
pub open spec fn timestamp_problem(s: Seq<char>) -> Option<Seq<char>> {
    if timestamp_shape(s) {
        None
    } else {
        Some("timestamp must be quoted UTC RFC3339 in YYYY-MM-DDTHH:MM:SSZ form"@)
    }
}

/// The problem with a semantic hash, if any.
pub open spec fn hash_problem(s: Seq<char>) -> Option<Seq<char>> {
    if hash_shape(s) {
        None
    } else {
        Some("hash must be sha256:<64 lowercase hexadecimal characters>"@)
    }
}

/// `s` starts with `p`.
pub open spec fn starts_with(s: Seq<char>, p: Seq<char>) -> bool {
    p.len() <= s.len() && s.take(p.len() as int) == p
}

/// Whether `s` starts with the literal `p`.
pub fn starts_with_str(s: &str, p: &str) -> (b: bool)
    ensures
        b == starts_with(s@, p@),
{
    let sc = str_chars(s);
    let pc = str_chars(p);
    if pc.len() > sc.len() {
        return false;
    }
    let mut i: usize = 0;
    while i < pc.len()
        invariant
            sc@ == s@,
            pc@ == p@,
            pc.len() <= sc.len(),
            i <= pc.len(),
            forall|j: int| 0 <= j < i ==> sc@[j] == pc@[j],
        decreases pc.len() - i,
    {
        if sc[i] != pc[i] {
            assert(sc@.take(pc.len() as int)[i as int] != pc@[i as int]);
            return false;
        }
        i = i + 1;
    }
    assert(sc@.take(pc.len() as int) =~= pc@);
    true
}

/// An actor ID: `human:`, `agent:` or `process:` followed by a name.
pub open spec fn is_actor(by: Seq<char>) -> bool {
    starts_with(by, "human:"@) || starts_with(by, "agent:"@) || starts_with(by, "process:"@)
}

fn actor(by: &str) -> (b: bool)
    ensures
        b == is_actor(by@),
{
    starts_with_str(by, "human:") || starts_with_str(by, "agent:") || starts_with_str(by, "process:")
}

/// A required field is missing.
pub open spec fn require_problem(map: Yaml, name: Seq<char>) -> Option<Seq<char>> {
    if field(map, name) is Some {
        None
    } else {
        Some("missing required field: "@ + name)
    }
}

/// Checks that `map` has the field `name`.
pub fn require(map: &Yaml, name: &str) -> (r: Result<(), String>)
    ensures
        outcome(r) == require_problem(*map, name@),
{
    if map.contains_key(name) {
        Ok(())
    } else {
        Err(concat2("missing required field: ", name))
    }
}

/// The string under `name`, or the error that it is not a string.
pub open spec fn string_field_spec(map: Yaml, name: Seq<char>) -> Result<Seq<char>, Seq<char>> {
    match str_field(map, name) {
        Some(s) => Ok(s),
        None => Err(name + " must be a string"@),
    }
}

/// The view of a string-or-error result.
pub open spec fn text_result(r: Result<String, String>) -> Result<Seq<char>, Seq<char>> {
    match r {
        Ok(s) => Ok(s@),
        Err(e) => Err(e@),
    }
}

/// Reads the string field `name`.
pub fn string_field(map: &Yaml, name: &str) -> (r: Result<String, String>)
    ensures
        text_result(r) == string_field_spec(*map, name@),
{
    match map.get_str(name) {
        Some(s) => Ok(s.to_owned()),
        None => Err(concat2(name, " must be a string")),
    }
}

/// The problem with a `generated` record: a mapping whose `by` is an actor
/// and whose `at` is a timestamp.
pub open spec fn generated_problem(v: Option<Yaml>) -> Option<Seq<char>> {
    if !is_map(v) {
        Some("generated must be a mapping"@)
    } else {
        let m = v.unwrap();
        match str_field(m, "by"@) {
            None => Some("generated.by must be a string"@),
            Some(by) => match str_field(m, "at"@) {
                None => Some("generated.at must be a string"@),
                Some(at) => if !is_actor(by) {
                    Some("generated.by must use a human:, agent:, or process: actor"@)
                } else {
                    timestamp_problem(at)
                },
            },
        }
    }
}

/// Checks a `generated` record.
pub fn validate_generated(value: Option<&Yaml>) -> (r: Result<(), String>)
    ensures
        outcome(r) == generated_problem(deref_opt(value)),
{
    let m = match value {
        Some(v) => {
            if !v.is_mapping() {
                return Err("generated must be a mapping".to_owned());
            }
            v
        },
        None => return Err("generated must be a mapping".to_owned()),
    };
    let by = match m.get_str("by") {
        Some(b) => b,
        None => return Err("generated.by must be a string".to_owned()),
    };
    let at = match m.get_str("at") {
        Some(a) => a,
        None => return Err("generated.at must be a string".to_owned()),
    };
    if !actor(by) {
        return Err("generated.by must use a human:, agent:, or process: actor".to_owned());
    }
    validate_timestamp(at)
}

/// The freshness states.
pub open spec fn is_freshness_state(s: Seq<char>) -> bool {
    s == "fresh"@ || s == "stale"@ || s == "unknown"@ || s == "not_applicable"@
}

/// The problem with an optional `freshness` record: its state must be known;
/// a fresh record needs `checked_at`, a stale one `detected_at` and a
/// `reason`.
pub open spec fn freshness_problem(v: Option<Yaml>) -> Option<Seq<char>> {
    match v {
        None => None,
        Some(y) => if !is_map(Some(y)) {
            Some("freshness must be a mapping"@)
        } else {
            match str_field(y, "state"@) {
                None => Some("freshness.state is required"@),
                Some(state) => if !is_freshness_state(state) {
                    Some("freshness.state is invalid"@)
                } else if state == "fresh"@ {
                    match str_field(y, "checked_at"@) {
                        None => Some("fresh freshness requires checked_at"@),
                        Some(t) => timestamp_problem(t),
                    }
                } else if state == "stale"@ {
                    match str_field(y, "detected_at"@) {
                        None => Some("stale freshness requires detected_at"@),
                        Some(t) => or_else(
                            timestamp_problem(t),
                            if str_field(y, "reason"@) is None {
                                Some("stale freshness requires reason"@)
                            } else {
                                None
                            },
                        ),
                    }
                } else {
                    None
                },
            }
        },
    }
}

/// Checks an optional `freshness` record.
pub fn validate_freshness(value: Option<&Yaml>) -> (r: Result<(), String>)
    ensures
        outcome(r) == freshness_problem(deref_opt(value)),
{
    let y = match value {
        None => return Ok(()),
        Some(y) => y,
    };
    if !y.is_mapping() {
        return Err("freshness must be a mapping".to_owned());
    }
    let state = match y.get_str("state") {
        None => return Err("freshness.state is required".to_owned()),
        Some(s) => s,
    };
    if !(str_eq(state, "fresh") || str_eq(state, "stale") || str_eq(state, "unknown") || str_eq(
        state,
        "not_applicable",
    )) {
        return Err("freshness.state is invalid".to_owned());
    }
    if str_eq(state, "fresh") {
        match y.get_str("checked_at") {
            None => return Err("fresh freshness requires checked_at".to_owned()),
            Some(t) => return validate_timestamp(t),
        }
    }
    if str_eq(state, "stale") {
        match y.get_str("detected_at") {
            None => return Err("stale freshness requires detected_at".to_owned()),
            Some(t) => {
                if let Err(e) = validate_timestamp(t) {
                    return Err(e);
                }
            },
        }
        if y.get_str("reason").is_none() {
            return Err("stale freshness requires reason".to_owned());
        }
    }
    Ok(())
}

/// The first problem among the items, checked in order.
pub open spec fn first_problem(s: Seq<Yaml>, check: spec_fn(Yaml) -> Option<Seq<char>>) -> Option<
    Seq<char>,
>
    decreases s.len(),
{
    if s.len() == 0 {
        None
    } else {
        or_else(check(s[0]), first_problem(s.drop_first(), check))
    }
}

/// Items before `i` have no problem: the first problem is that of the rest.
pub proof fn lemma_first_problem(s: Seq<Yaml>, check: spec_fn(Yaml) -> Option<Seq<char>>, i: int)
    requires
        0 <= i <= s.len(),
        forall|j: int| 0 <= j < i ==> #[trigger] check(s[j]) is None,
    ensures
        first_problem(s, check) == first_problem(s.skip(i), check),
    decreases i,
{
    if i > 0 {
        assert(check(s[0]) is None);
        assert forall|j: int| 0 <= j < i - 1 implies #[trigger] check(s.drop_first()[j]) is None by {
            assert(s.drop_first()[j] == s[j + 1]);
        }
        lemma_first_problem(s.drop_first(), check, i - 1);
        assert(s.drop_first().skip(i - 1) =~= s.skip(i));
    } else {
        assert(s.skip(0) =~= s);
    }
}

/// The problem with one verification attestation.
pub open spec fn attestation_problem(a: Yaml) -> Option<Seq<char>> {
    if !is_map(Some(a)) {
        Some("each verification attestation must be a mapping"@)
    } else {
        or_else(
            require_problem(a, "by"@),
            or_else(
                require_problem(a, "at"@),
                or_else(
                    require_problem(a, "subject"@),
                    or_else(
                        require_problem(a, "revision"@),
                        match string_field_spec(a, "by"@) {
                            Err(e) => Some(e),
                            Ok(by) => if !is_actor(by) {
                                Some("verification by must use an actor ID"@)
                            } else {
                                match string_field_spec(a, "at"@) {
                                    Err(e) => Some(e),
                                    Ok(at) => or_else(
                                        timestamp_problem(at),
                                        match string_field_spec(a, "revision"@) {
                                            Err(e) => Some(e),
                                            Ok(rev) => or_else(
                                                hash_problem(rev),
                                                if !is_map(field(a, "subject"@)) {
                                                    Some("verification subject must be a mapping"@)
                                                } else {
                                                    None
                                                },
                                            ),
                                        },
                                    ),
                                }
                            },
                        },
                    ),
                ),
            ),
        )
    }
}

fn validate_attestation(a: &Yaml) -> (r: Result<(), String>)
    ensures
        outcome(r) == attestation_problem(*a),
{
    if !a.is_mapping() {
        return Err("each verification attestation must be a mapping".to_owned());
    }
    if let Err(e) = require(a, "by") {
        return Err(e);
    }
    if let Err(e) = require(a, "at") {
        return Err(e);
    }
    if let Err(e) = require(a, "subject") {
        return Err(e);
    }
    if let Err(e) = require(a, "revision") {
        return Err(e);
    }
    let by = match string_field(a, "by") {
        Err(e) => return Err(e),
        Ok(b) => b,
    };
    if !actor(by.as_str()) {
        return Err("verification by must use an actor ID".to_owned());
    }
    let at = match string_field(a, "at") {
        Err(e) => return Err(e),
        Ok(t) => t,
    };
    if let Err(e) = validate_timestamp(at.as_str()) {
        return Err(e);
    }
    let rev = match string_field(a, "revision") {
        Err(e) => return Err(e),
        Ok(h) => h,
    };
    if let Err(e) = validate_hash(rev.as_str()) {
        return Err(e);
    }
    let subject_is_map = match a.get("subject") {
        Some(s) => s.is_mapping(),
        None => false,
    };
    if !subject_is_map {
        return Err("verification subject must be a mapping".to_owned());
    }
    Ok(())
}

/// The attestation rule as a check over list items.
pub open spec fn attestation_check() -> spec_fn(Yaml) -> Option<Seq<char>> {
    |a: Yaml| attestation_problem(a)
}

/// The problem with a `verified` list.
pub open spec fn verified_problem(v: Yaml) -> Option<Seq<char>> {
    match items(Some(v)) {
        None => Some("verified must be a list"@),
        Some(list) => first_problem(list, attestation_check()),
    }
}

/// Checks a `verified` list of attestations.
pub fn validate_verified(value: &Yaml) -> (r: Result<(), String>)
    ensures
        outcome(r) == verified_problem(*value),
{
    let list = match value.as_seq() {
        None => return Err("verified must be a list".to_owned()),
        Some(l) => l,
    };
    let ghost check = attestation_check();
    let mut i: usize = 0;
    while i < list.len()
        invariant
            i <= list.len(),
            forall|j: int| 0 <= j < i ==> #[trigger] check(list@[j]) is None,
            check == attestation_check(),
            items(Some(*value)) == Some(list@),
        decreases list.len() - i,
    {
        let r = validate_attestation(&list[i]);
        if r.is_err() {
            proof {
                lemma_first_problem(list@, check, i as int);
                let rest = list@.skip(i as int);
                assert(rest[0] == list@[i as int]);
                assert(check(rest[0]) == attestation_problem(list@[i as int]));
                assert(first_problem(rest, check) == or_else(check(rest[0]), first_problem(rest.drop_first(), check)));
            }
            return r;
        }
        i = i + 1;
    }
    proof {
        lemma_first_problem(list@, check, i as int);
        assert(list@.skip(i as int).len() == 0);
    }
    Ok(())
}

} // verus!
