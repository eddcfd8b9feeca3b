//! Authored relations: each relation must be registered, connect allowed
//! types and address kinds, and carry selectors only where they make sense.

use vstd::prelude::*;

use crate::okf::fields::{
    first_problem, lemma_first_problem, or_else, string_field, string_field_spec,
};
use crate::okf::registries::{relation_views, texts, RelationRule, RuleView};
use crate::okf::validate::outcome;
use crate::okf::yaml::{field, integer, is_map, items, Yaml};
use crate::text::{char_index, concat2, concat3, find_char, slice_chars, str_chars, str_eq, string_from_chars};

verus! {

/// The first entry named `name`.
pub open spec fn lookup_rule<V>(s: Seq<(Seq<char>, V)>, name: Seq<char>) -> Option<V>
    decreases s.len(),
{
    if s.len() == 0 {
        None
    } else if s[0].0 == name {
        Some(s[0].1)
    } else {
        lookup_rule(s.drop_first(), name)
    }
}

proof fn lemma_lookup_rule<V>(s: Seq<(Seq<char>, V)>, name: Seq<char>, i: int)
    requires
        0 <= i <= s.len(),
        forall|j: int| 0 <= j < i ==> #[trigger] s[j].0 != name,
    ensures
        i < s.len() && s[i].0 == name ==> lookup_rule(s, name) == Some(s[i].1),
        i == s.len() ==> lookup_rule(s, name) is None,
    decreases i,
{
    if i > 0 {
        let rest = s.drop_first();
        assert forall|j: int| 0 <= j < i - 1 implies #[trigger] rest[j].0 != name by {
            assert(rest[j] == s[j + 1]);
        }
        lemma_lookup_rule(rest, name, i - 1);
    }
}

/// Finds the rule of a relation type.
pub fn find_relation_rule<'a>(relations: &'a Vec<(String, RelationRule)>, name: &str) -> (r: Option<&'a RelationRule>)
    ensures
        match r {
            Some(rule) => lookup_rule(relation_views(relations@), name@) == Some(rule@),
            None => lookup_rule(relation_views(relations@), name@) is None,
        },
{
    let ghost rv = relation_views(relations@);
    let mut i: usize = 0;
    while i < relations.len()
        invariant
            rv == relation_views(relations@),
            i <= relations.len(),
            forall|j: int| 0 <= j < i ==> #[trigger] rv[j].0 != name@,
        decreases relations.len() - i,
    {
        assert(rv[i as int] == (relations@[i as int].0@, relations@[i as int].1@));
        if str_eq(relations[i].0.as_str(), name) {
            proof { lemma_lookup_rule(rv, name@, i as int); }
            return Some(&relations[i].1);
        }
        i = i + 1;
    }
    proof { lemma_lookup_rule(rv, name@, i as int); }
    None
}

/// The part of an object ID before its first `.` (all of it without one).
pub open spec fn type_prefix(object: Seq<char>) -> Seq<char> {
    match char_index(object, '.') {
        Some(i) => object.take(i as int),
        None => object,
    }
}

fn type_prefix_exec(object: &str) -> (s: String)
    ensures
        s@ == type_prefix(object@),
{
    let cs = str_chars(object);
    match find_char(cs.as_slice(), '.') {
        Some(i) => {
            let v = slice_chars(cs.as_slice(), 0, i);
            assert(v@ == cs@.take(i as int));
            string_from_chars(&v)
        },
        None => object.to_owned(),
    }
}

fn contains_text(v: &Vec<String>, s: &str) -> (b: bool)
    ensures
        b == texts(v@).contains(s@),
{
    let mut i: usize = 0;
    while i < v.len()
        invariant
            i <= v.len(),
            forall|j: int| 0 <= j < i ==> #[trigger] texts(v@)[j] != s@,
        decreases v.len() - i,
    {
        if str_eq(v[i].as_str(), s) {
            assert(texts(v@)[i as int] == s@);
            return true;
        }
        i = i + 1;
    }
    false
}

/// The problem with one selector.
pub open spec fn selector_problem(s: Yaml) -> Option<Seq<char>> {
    if !is_map(Some(s)) {
        Some("each selector must be a mapping"@)
    } else {
        match string_field_spec(s, "kind"@) {
            Err(e) => Some(e),
            Ok(kind) => if kind == "lines"@ {
                match integer(field(s, "start"@)) {
                    None => Some("line selector start must be an integer"@),
                    Some(start) => match integer(field(s, "end"@)) {
                        None => Some("line selector end must be an integer"@),
                        Some(end) => if start < 1 || end < start {
                            Some("line selector must be 1-based with end >= start"@)
                        } else {
                            None
                        },
                    },
                }
            } else if kind == "section"@ || kind == "symbol"@ || kind == "json_pointer"@ {
                match string_field_spec(s, "value"@) {
                    Err(e) => Some(e),
                    Ok(v) => if v.len() == 0 {
                        Some("selector value must not be empty"@)
                    } else {
                        None
                    },
                }
            } else {
                Some("selector kind must be lines, section, symbol, or json_pointer"@)
            },
        }
    }
}

/// The selector rule as a check over list items.
pub open spec fn selector_check() -> spec_fn(Yaml) -> Option<Seq<char>> {
    |s: Yaml| selector_problem(s)
}

/// The problem with a `selectors` value: a sequence of selector mappings,
/// line ranges 1-based and ordered, named selectors non-empty.
pub open spec fn selectors_problem(v: Yaml) -> Option<Seq<char>> {
    match items(Some(v)) {
        None => Some("selectors must be a sequence"@),
        Some(list) => first_problem(list, selector_check()),
    }
}

fn validate_selector(s: &Yaml) -> (r: Result<(), String>)
    ensures
        outcome(r) == selector_problem(*s),
{
    if !s.is_mapping() {
        return Err("each selector must be a mapping".to_owned());
    }
    let kind = match string_field(s, "kind") {
        Err(e) => return Err(e),
        Ok(k) => k,
    };
    let k = kind.as_str();
    if str_eq(k, "lines") {
        let start = match s.get("start") {
            Some(v) => match v.as_i64() {
                Some(n) => n,
                None => return Err("line selector start must be an integer".to_owned()),
            },
            None => return Err("line selector start must be an integer".to_owned()),
        };
        let end = match s.get("end") {
            Some(v) => match v.as_i64() {
                Some(n) => n,
                None => return Err("line selector end must be an integer".to_owned()),
            },
            None => return Err("line selector end must be an integer".to_owned()),
        };
        if start < 1 || end < start {
            return Err("line selector must be 1-based with end >= start".to_owned());
        }
        Ok(())
    } else if str_eq(k, "section") || str_eq(k, "symbol") || str_eq(k, "json_pointer") {
        match string_field(s, "value") {
            Err(e) => Err(e),
            Ok(v) => if v.as_str().is_empty() {
                Err("selector value must not be empty".to_owned())
            } else {
                Ok(())
            },
        }
    } else {
        Err("selector kind must be lines, section, symbol, or json_pointer".to_owned())
    }
}

/// Checks a `selectors` value.
pub fn validate_selectors(value: &Yaml) -> (r: Result<(), String>)
    ensures
        outcome(r) == selectors_problem(*value),
{
    let list = match value.as_seq() {
        None => return Err("selectors must be a sequence".to_owned()),
        Some(l) => l,
    };
    let ghost check = selector_check();
    let mut i: usize = 0;
    while i < list.len()
        invariant
            i <= list.len(),
            forall|j: int| 0 <= j < i ==> #[trigger] check(list@[j]) is None,
            check == selector_check(),
            items(Some(*value)) == Some(list@),
        decreases list.len() - i,
    {
        let r = validate_selector(&list[i]);
        if r.is_err() {
            proof {
                lemma_first_problem(list@, check, i as int);
                let rest = list@.skip(i as int);
                assert(rest[0] == list@[i as int]);
                assert(first_problem(rest, check) == or_else(check(rest[0]), first_problem(rest.drop_first(), check)));
            }
            return r;
        }
        i = i + 1;
    }
    proof {
        lemma_first_problem(list@, check, i as int);
        assert(list@.skip(i as int).len() == 0);
    }
    Ok(())
}

/// The problem with one authored relation whose source has type
/// `source_type` and is a claim when `source_claim` holds.
pub open spec fn relation_problem(
    rel: Yaml,
    source_type: Seq<char>,
    source_claim: bool,
    rules: Seq<(Seq<char>, RuleView)>,
) -> Option<Seq<char>> {
    if !is_map(Some(rel)) {
        Some("each relation must be a mapping"@)
    } else {
        match string_field_spec(rel, "type"@) {
            Err(e) => Some(e),
            Ok(name) => match lookup_rule(rules, name) {
                None => Some("unknown authored relation: "@ + name),
                Some(rule) => if source_claim && !rule.source_claim {
                    Some("relation "@ + name + " cannot originate from a claim"@)
                } else if !rule.source_types.contains(source_type) {
                    Some("relation "@ + name + " cannot originate from "@ + source_type)
                } else if !is_map(field(rel, "target"@)) {
                    Some("relation target must be a mapping"@)
                } else {
                    let target = field(rel, "target"@).unwrap();
                    match string_field_spec(target, "object"@) {
                        Err(e) => Some(e),
                        Ok(object) => target_problem(rel, name, rule, source_type, source_claim, type_prefix(object), field(target, "claim"@) is Some),
                    }
                },
            },
        }
    }
}

/// The checks of a relation once its target object is known.
pub open spec fn target_problem(
    rel: Yaml,
    name: Seq<char>,
    rule: RuleView,
    source_type: Seq<char>,
    source_claim: bool,
    target_type: Seq<char>,
    target_claim: bool,
) -> Option<Seq<char>> {
    let has_selectors = field(rel, "selectors"@) is Some;
    if !rule.target_types.contains(target_type) {
        Some("relation "@ + name + " cannot target "@ + target_type)
    } else if name == "supersedes"@ && target_type != source_type {
        Some("supersedes must connect the same semantic type"@)
    } else if target_claim && !rule.target_claim {
        Some("relation "@ + name + " cannot target a claim"@)
    } else if target_claim && target_type == "reference"@ {
        Some("Reference claims are forbidden"@)
    } else if has_selectors && !rule.selectors {
        Some("relation "@ + name + " does not allow selectors"@)
    } else if has_selectors && (name != "supported_by"@ && name != "derived_from"@) {
        Some("selectors are only allowed on supported_by or derived_from"@)
    } else if has_selectors && (target_claim || target_type != "reference"@) {
        Some("selectors require a whole Reference target"@)
    } else if has_selectors && selectors_problem(field(rel, "selectors"@).unwrap()) is Some {
        selectors_problem(field(rel, "selectors"@).unwrap())
    } else if name == "supersedes"@ && target_claim != source_claim {
        Some("supersedes must connect matching address kinds"@)
    } else if name == "part_of"@ && (source_claim || target_claim) {
        Some("part_of cannot target claims"@)
    } else {
        None
    }
}

fn validate_relation(rel: &Yaml, source_type: &str, source_claim: bool, relations: &Vec<(String, RelationRule)>) -> (r: Result<(), String>)
    ensures
        outcome(r) == relation_problem(*rel, source_type@, source_claim, relation_views(relations@)),
{
    if !rel.is_mapping() {
        return Err("each relation must be a mapping".to_owned());
    }
    let name = match string_field(rel, "type") {
        Err(e) => return Err(e),
        Ok(n) => n,
    };
    let n = name.as_str();
    let rule = match find_relation_rule(relations, n) {
        None => return Err(concat2("unknown authored relation: ", n)),
        Some(rule) => rule,
    };
    if source_claim && !rule.source_claim {
        return Err(concat3("relation ", n, " cannot originate from a claim"));
    }
    if !contains_text(&rule.source_types, source_type) {
        let head = concat3("relation ", n, " cannot originate from ");
        return Err(concat2(head.as_str(), source_type));
    }
    let target = match rel.get("target") {
        Some(t) => {
            if !t.is_mapping() {
                return Err("relation target must be a mapping".to_owned());
            }
            t
        },
        None => return Err("relation target must be a mapping".to_owned()),
    };
    let object = match string_field(target, "object") {
        Err(e) => return Err(e),
        Ok(o) => o,
    };
    let tt = type_prefix_exec(object.as_str());
    let target_type = tt.as_str();
    let target_claim = target.contains_key("claim");
    let selectors = rel.get("selectors");
    let has_selectors = selectors.is_some();
    if !contains_text(&rule.target_types, target_type) {
        let head = concat3("relation ", n, " cannot target ");
        return Err(concat2(head.as_str(), target_type));
    }
    if str_eq(n, "supersedes") && !str_eq(target_type, source_type) {
        return Err("supersedes must connect the same semantic type".to_owned());
    }
    if target_claim && !rule.target_claim {
        return Err(concat3("relation ", n, " cannot target a claim"));
    }
    if target_claim && str_eq(target_type, "reference") {
        return Err("Reference claims are forbidden".to_owned());
    }
    if has_selectors && !rule.selectors {
        return Err(concat3("relation ", n, " does not allow selectors"));
    }
    if has_selectors && (!str_eq(n, "supported_by") && !str_eq(n, "derived_from")) {
        return Err("selectors are only allowed on supported_by or derived_from".to_owned());
    }
    if let Some(sel) = selectors {
        if target_claim || !str_eq(target_type, "reference") {
            return Err("selectors require a whole Reference target".to_owned());
        }
        if let Err(e) = validate_selectors(sel) {
            return Err(e);
        }
    }
    if str_eq(n, "supersedes") && target_claim != source_claim {
        return Err("supersedes must connect matching address kinds".to_owned());
    }
    if str_eq(n, "part_of") && (source_claim || target_claim) {
        return Err("part_of cannot target claims".to_owned());
    }
    Ok(())
}

/// The relation rule as a check over list items.
pub open spec fn relation_check(source_type: Seq<char>, source_claim: bool, rules: Seq<(Seq<char>, RuleView)>) -> spec_fn(Yaml) -> Option<Seq<char>> {
    |r: Yaml| relation_problem(r, source_type, source_claim, rules)
}

/// The problem with a `relations` value.
pub open spec fn relation_sequence_problem(
    v: Yaml,
    source_type: Seq<char>,
    source_claim: bool,
    rules: Seq<(Seq<char>, RuleView)>,
) -> Option<Seq<char>> {
    match items(Some(v)) {
        None => Some("relations must be a sequence"@),
        Some(list) => first_problem(list, relation_check(source_type, source_claim, rules)),
    }
}

/// Checks a sequence of authored relations against the relation registry.
pub fn validate_relation_sequence(
    value: &Yaml,
    source_type: &str,
    source_claim: bool,
    relations: &Vec<(String, RelationRule)>,
) -> (r: Result<(), String>)
    ensures
        outcome(r) == relation_sequence_problem(*value, source_type@, source_claim, relation_views(relations@)),
{
    let list = match value.as_seq() {
        None => return Err("relations must be a sequence".to_owned()),
        Some(l) => l,
    };
    let ghost check = relation_check(source_type@, source_claim, relation_views(relations@));
    let mut i: usize = 0;
    while i < list.len()
        invariant
            i <= list.len(),
            forall|j: int| 0 <= j < i ==> #[trigger] check(list@[j]) is None,
            check == relation_check(source_type@, source_claim, relation_views(relations@)),
            items(Some(*value)) == Some(list@),
        decreases list.len() - i,
    {
        let r = validate_relation(&list[i], source_type, source_claim, relations);
        if r.is_err() {
            proof {
                lemma_first_problem(list@, check, i as int);
                let rest = list@.skip(i as int);
                assert(rest[0] == list@[i as int]);
                assert(first_problem(rest, check) == or_else(check(rest[0]), first_problem(rest.drop_first(), check)));
            }
            return r;
        }
        i = i + 1;
    }
    proof {
        lemma_first_problem(list@, check, i as int);
        assert(list@.skip(i as int).len() == 0);
    }
    Ok(())
}

/// The relations of an object and of its claims: the object's own relations
/// are checked as coming from an object, each claim's as coming from a claim.
pub open spec fn relations_shape_problem(map: Yaml, object_type: Seq<char>, rules: Seq<(Seq<char>, RuleView)>) -> Option<Seq<char>> {
    or_else(
        match field(map, "relations"@) {
            Some(v) => relation_sequence_problem(v, object_type, false, rules),
            None => None,
        },
        match items(field(map, "claims"@)) {
            Some(claims) => first_problem(claims, claim_relations_check(object_type, rules)),
            None => None,
        },
    )
}

/// The relations of one claim as a check over list items.
pub open spec fn claim_relations_check(object_type: Seq<char>, rules: Seq<(Seq<char>, RuleView)>) -> spec_fn(Yaml) -> Option<Seq<char>> {
    |c: Yaml| match field(c, "relations"@) {
        Some(v) => relation_sequence_problem(v, object_type, true, rules),
        None => None,
    }
}

/// Checks the relations of an object and of its claims.
pub fn validate_relations_shape(map: &Yaml, object_type: &str, relations: &Vec<(String, RelationRule)>) -> (r: Result<(), String>)
    ensures
        outcome(r) == relations_shape_problem(*map, object_type@, relation_views(relations@)),
{
    if let Some(v) = map.get("relations") {
        if let Err(e) = validate_relation_sequence(v, object_type, false, relations) {
            return Err(e);
        }
    }
    let claims = match map.get("claims") {
        Some(c) => match c.as_seq() {
            Some(l) => l,
            None => return Ok(()),
        },
        None => return Ok(()),
    };
    let ghost check = claim_relations_check(object_type@, relation_views(relations@));
    let mut i: usize = 0;
    while i < claims.len()
        invariant
            i <= claims.len(),
            forall|j: int| 0 <= j < i ==> #[trigger] check(claims@[j]) is None,
            check == claim_relations_check(object_type@, relation_views(relations@)),
            items(field(*map, "claims"@)) == Some(claims@),
            relations_shape_problem(*map, object_type@, relation_views(relations@)) == first_problem(claims@, check),
        decreases claims.len() - i,
    {
        let r = match claims[i].get("relations") {
            Some(v) => validate_relation_sequence(v, object_type, true, relations),
            None => Ok(()),
        };
        if r.is_err() {
            proof {
                lemma_first_problem(claims@, check, i as int);
                let rest = claims@.skip(i as int);
                assert(rest[0] == claims@[i as int]);
                assert(first_problem(rest, check) == or_else(check(rest[0]), first_problem(rest.drop_first(), check)));
            }
            return r;
        }
        i = i + 1;
    }
    proof {
        lemma_first_problem(claims@, check, i as int);
        assert(claims@.skip(i as int).len() == 0);
    }
    Ok(())
}

} // verus!
