//! Type contracts: what each semantic type's registry rule demands of an
//! object, and the full check of a document against the registries.

use vstd::prelude::*;

use crate::okf::body::{has_heading, markdown_has_heading};
use crate::okf::document::{document_problem, validate_document, SemanticDocument};
use crate::okf::fields::{
    or_else, require, require_problem, string_field, string_field_spec, timestamp_problem,
};
use crate::okf::references::{reference_source_problem, validate_reference_source};
use crate::okf::registries::{relation_views, texts, type_views, Registries, TypeRule, TypeView};
use crate::okf::relations::{lookup_rule, relations_shape_problem, validate_relations_shape};
use crate::okf::validate::{outcome, valid_decision_key, valid_decision_key_spec, validate_timestamp};
use crate::okf::yaml::{field, items, str_field, text, Yaml};
use crate::text::{concat2, concat3, str_eq};

verus! {

/// Some claim has the ID `id`.
pub open spec fn has_claim(claims: Option<Seq<Yaml>>, id: Seq<char>) -> bool {
    match claims {
        Some(list) => exists|i: int| 0 <= i < list.len() && #[trigger] str_field(list[i], "id"@) == Some(id),
        None => false,
    }
}

/// Some claim with the ID `id` is active.
pub open spec fn claim_active(claims: Option<Seq<Yaml>>, id: Seq<char>) -> bool {
    match claims {
        Some(list) => exists|i: int|
            0 <= i < list.len() && #[trigger] str_field(list[i], "id"@) == Some(id) && str_field(list[i], "lifecycle"@)
                == Some("active"@),
        None => false,
    }
}

/// The first claim with the ID `id`.
pub open spec fn first_claim(list: Seq<Yaml>, id: Seq<char>) -> Option<Yaml>
    decreases list.len(),
{
    if list.len() == 0 {
        None
    } else if str_field(list[0], "id"@) == Some(id) {
        Some(list[0])
    } else {
        first_claim(list.drop_first(), id)
    }
}

/// The single canonical claim pointer of a type (`definition_claim`,
/// `decision_claim`, ...).
pub open spec fn canonical_claim_problem(map: Yaml, rule: TypeView, lifecycle: Seq<char>, claims: Option<Seq<Yaml>>) -> Option<Seq<char>> {
    match rule.canonical_claim {
        None => None,
        Some(f) => match field(map, f) {
            Some(p) => match text(Some(p)) {
                None => Some(f + " must be a string"@),
                Some(ptr) => if !has_claim(claims, ptr) {
                    Some(f + " must point to an existing claim"@)
                } else if lifecycle == "active"@ && !claim_active(claims, ptr) {
                    Some("active "@ + f + " must point to an active claim"@)
                } else {
                    None
                },
            },
            None => if lifecycle == "active"@ {
                Some("active object requires "@ + f)
            } else {
                None
            },
        },
    }
}

/// The field that lists canonical claims.
pub open spec fn canonical_list_field(map: Yaml) -> Seq<char> {
    if field(map, "behavior_claims"@) is Some {
        "behavior_claims"@
    } else {
        "conclusion_claims"@
    }
}

/// The first bad pointer among `ptrs` from index `k` on.
pub open spec fn pointers_problem(ptrs: Seq<Yaml>, f: Seq<char>, lifecycle: Seq<char>, claims: Option<Seq<Yaml>>, k: int) -> Option<Seq<char>>
    decreases ptrs.len() - k,
{
    if k < 0 || k >= ptrs.len() {
        None
    } else {
        match text(Some(ptrs[k])) {
            None => Some(f + " entries must be strings"@),
            Some(ptr) => if !has_claim(claims, ptr) || (lifecycle == "active"@ && !claim_active(claims, ptr)) {
                Some(f + " must point to active existing claims"@)
            } else {
                pointers_problem(ptrs, f, lifecycle, claims, k + 1)
            },
        }
    }
}

/// The list of canonical claims of a type (`behavior_claims` or
/// `conclusion_claims`).
pub open spec fn canonical_claims_problem(map: Yaml, rule: TypeView, lifecycle: Seq<char>, claims: Option<Seq<Yaml>>) -> Option<Seq<char>> {
    if !rule.canonical_claims {
        None
    } else {
        let f = canonical_list_field(map);
        match field(map, f) {
            Some(p) => match items(Some(p)) {
                None => Some(f + " must be a sequence"@),
                Some(ptrs) => if lifecycle == "active"@ && ptrs.len() == 0 {
                    Some("active "@ + f + " must not be empty"@)
                } else {
                    pointers_problem(ptrs, f, lifecycle, claims, 0)
                },
            },
            None => if lifecycle == "active"@ {
                Some("active object requires "@ + f)
            } else {
                None
            },
        }
    }
}

/// The first required section from index `k` on missing from the body.
pub open spec fn missing_section(body: Seq<char>, sections: Seq<Seq<char>>, k: int) -> Option<Seq<char>>
    decreases sections.len() - k,
{
    if k < 0 || k >= sections.len() {
        None
    } else if !has_heading(body, sections[k]) {
        Some("active object is missing required section: "@ + sections[k])
    } else {
        missing_section(body, sections, k + 1)
    }
}

/// An active Decision: a well-formed `decision_key`, a load-bearing
/// `decision_claim`, and a `decided_at` timestamp.
pub open spec fn decision_problem(map: Yaml, claims: Option<Seq<Yaml>>) -> Option<Seq<char>> {
    if str_field(map, "type"@) != Some("decision"@) {
        None
    } else {
        match string_field_spec(map, "decision_key"@) {
            Err(e) => Some(e),
            Ok(key) => if !valid_decision_key_spec(key) {
                Some("decision_key must use lowercase dot- or hyphen-separated segments"@)
            } else {
                match str_field(map, "decision_claim"@) {
                    None => Some("active Decision requires decision_claim"@),
                    Some(cid) => match (match claims {
                        Some(list) => first_claim(list, cid),
                        None => None,
                    }) {
                        None => Some("decision_claim must point to an existing claim"@),
                        Some(claim) => if field(claim, "load_bearing"@) != Some(Yaml::Bool(true)) {
                            Some("active Decision decision_claim must be load-bearing"@)
                        } else {
                            or_else(
                                require_problem(map, "decided_at"@),
                                match string_field_spec(map, "decided_at"@) {
                                    Err(e) => Some(e),
                                    Ok(t) => timestamp_problem(t),
                                },
                            )
                        },
                    },
                }
            },
        }
    }
}

/// The problem with a document under its type's rule.
pub open spec fn type_contract_problem(d: SemanticDocument, rule: TypeView) -> Option<Seq<char>> {
    let map = d.frontmatter;
    match string_field_spec(map, "lifecycle"@) {
        Err(e) => Some(e),
        Ok(lifecycle) => {
            let claims = items(field(map, "claims"@));
            or_else(
                canonical_claim_problem(map, rule, lifecycle, claims),
                or_else(
                    canonical_claims_problem(map, rule, lifecycle, claims),
                    if lifecycle == "active"@ {
                        or_else(missing_section(d.body@, rule.active_sections, 0), decision_problem(map, claims))
                    } else {
                        None
                    },
                ),
            )
        },
    }
}

fn claim_lookup(claims: Option<&Vec<Yaml>>, id: &str) -> (r: (bool, bool))
    ensures
        r.0 == has_claim(match claims { Some(v) => Some(v@), None => None }, id@),
        r.1 == claim_active(match claims { Some(v) => Some(v@), None => None }, id@),
{
    let list = match claims {
        Some(l) => l,
        None => return (false, false),
    };
    let mut found = false;
    let mut active = false;
    let mut i: usize = 0;
    while i < list.len()
        invariant
            i <= list.len(),
            found == exists|j: int| 0 <= j < i && #[trigger] str_field(list@[j], "id"@) == Some(id@),
            active == exists|j: int|
                0 <= j < i && #[trigger] str_field(list@[j], "id"@) == Some(id@) && str_field(list@[j], "lifecycle"@)
                    == Some("active"@),
        decreases list.len() - i,
    {
        let matches = match list[i].get_str("id") {
            Some(s) => str_eq(s, id),
            None => false,
        };
        if matches {
            found = true;
            let is_active = match list[i].get_str("lifecycle") {
                Some(l) => str_eq(l, "active"),
                None => false,
            };
            if is_active {
                active = true;
            }
        }
        i = i + 1;
    }
    (found, active)
}

fn find_claim<'a>(list: &'a Vec<Yaml>, id: &str) -> (r: Option<&'a Yaml>)
    ensures
        match r {
            Some(c) => first_claim(list@, id@) == Some(*c),
            None => first_claim(list@, id@) is None,
        },
{
    let mut i: usize = 0;
    assert(list@.skip(0) =~= list@);
    while i < list.len()
        invariant
            i <= list.len(),
            first_claim(list@, id@) == first_claim(list@.skip(i as int), id@),
        decreases list.len() - i,
    {
        let ghost rest = list@.skip(i as int);
        assert(rest[0] == list@[i as int]);
        assert(rest.drop_first() =~= list@.skip(i + 1));
        let matches = match list[i].get_str("id") {
            Some(s) => str_eq(s, id),
            None => false,
        };
        if matches {
            return Some(&list[i]);
        }
        i = i + 1;
    }
    None
}

fn canonical_claim_check(map: &Yaml, rule: &TypeRule, lifecycle: &str, claims: Option<&Vec<Yaml>>) -> (r: Result<(), String>)
    ensures
        outcome(r) == canonical_claim_problem(*map, rule@, lifecycle@, match claims { Some(v) => Some(v@), None => None }),
{
    let f = match &rule.canonical_claim {
        None => return Ok(()),
        Some(f) => f.as_str(),
    };
    match map.get(f) {
        Some(p) => match p.as_str() {
            None => Err(concat2(f, " must be a string")),
            Some(ptr) => {
                let (found, active) = claim_lookup(claims, ptr);
                if !found {
                    Err(concat2(f, " must point to an existing claim"))
                } else if str_eq(lifecycle, "active") && !active {
                    Err(concat3("active ", f, " must point to an active claim"))
                } else {
                    Ok(())
                }
            },
        },
        None => if str_eq(lifecycle, "active") {
            Err(concat2("active object requires ", f))
        } else {
            Ok(())
        },
    }
}

fn canonical_claims_check(map: &Yaml, rule: &TypeRule, lifecycle: &str, claims: Option<&Vec<Yaml>>) -> (r: Result<(), String>)
    ensures
        outcome(r) == canonical_claims_problem(*map, rule@, lifecycle@, match claims { Some(v) => Some(v@), None => None }),
{
    if !rule.canonical_claims {
        return Ok(());
    }
    let f = if map.contains_key("behavior_claims") {
        "behavior_claims"
    } else {
        "conclusion_claims"
    };
    let ghost cl = match claims { Some(v) => Some(v@), None => None };
    let ptrs = match map.get(f) {
        Some(p) => match p.as_seq() {
            None => return Err(concat2(f, " must be a sequence")),
            Some(ptrs) => ptrs,
        },
        None => {
            if str_eq(lifecycle, "active") {
                return Err(concat2("active object requires ", f));
            } else {
                return Ok(());
            }
        },
    };
    if str_eq(lifecycle, "active") && ptrs.len() == 0 {
        return Err(concat3("active ", f, " must not be empty"));
    }
    let mut k: usize = 0;
    while k < ptrs.len()
        invariant
            k <= ptrs.len(),
            cl == match claims { Some(v) => Some(v@), None => None },
            canonical_claims_problem(*map, rule@, lifecycle@, cl) == pointers_problem(ptrs@, f@, lifecycle@, cl, k as int),
        decreases ptrs.len() - k,
    {
        let ptr = match ptrs[k].as_str() {
            None => return Err(concat2(f, " entries must be strings")),
            Some(p) => p,
        };
        let (found, active) = claim_lookup(claims, ptr);
        if !found || (str_eq(lifecycle, "active") && !active) {
            return Err(concat2(f, " must point to active existing claims"));
        }
        k = k + 1;
    }
    Ok(())
}

fn decision_check(map: &Yaml, claims: Option<&Vec<Yaml>>) -> (r: Result<(), String>)
    ensures
        outcome(r) == decision_problem(*map, match claims { Some(v) => Some(v@), None => None }),
{
    let is_decision = match map.get_str("type") {
        Some(t) => str_eq(t, "decision"),
        None => false,
    };
    if !is_decision {
        return Ok(());
    }
    let key = match string_field(map, "decision_key") {
        Err(e) => return Err(e),
        Ok(k) => k,
    };
    if !valid_decision_key(key.as_str()) {
        return Err("decision_key must use lowercase dot- or hyphen-separated segments".to_owned());
    }
    let cid = match map.get_str("decision_claim") {
        None => return Err("active Decision requires decision_claim".to_owned()),
        Some(c) => c,
    };
    let claim = match claims {
        Some(list) => find_claim(list, cid),
        None => None,
    };
    let claim = match claim {
        None => return Err("decision_claim must point to an existing claim".to_owned()),
        Some(c) => c,
    };
    let load_bearing = match claim.get("load_bearing") {
        Some(v) => match v {
            Yaml::Bool(b) => *b,
            _ => false,
        },
        None => false,
    };
    if !load_bearing {
        return Err("active Decision decision_claim must be load-bearing".to_owned());
    }
    if let Err(e) = require(map, "decided_at") {
        return Err(e);
    }
    match string_field(map, "decided_at") {
        Err(e) => Err(e),
        Ok(t) => validate_timestamp(t.as_str()),
    }
}

/// Checks a document against its type's rule: canonical claim pointers,
/// required sections of active objects, and the extra demands on active
/// Decisions.
pub fn validate_type_contract(document: &SemanticDocument, rule: &TypeRule) -> (r: Result<(), String>)
    ensures
        outcome(r) == type_contract_problem(*document, rule@),
{
    let map = &document.frontmatter;
    let lifecycle = match string_field(map, "lifecycle") {
        Err(e) => return Err(e),
        Ok(l) => l,
    };
    let claims = match map.get("claims") {
        Some(c) => c.as_seq(),
        None => None,
    };
    if let Err(e) = canonical_claim_check(map, rule, lifecycle.as_str(), claims) {
        return Err(e);
    }
    if let Err(e) = canonical_claims_check(map, rule, lifecycle.as_str(), claims) {
        return Err(e);
    }
    let ghost cl = match claims { Some(v) => Some(v@), None => None };
    if str_eq(lifecycle.as_str(), "active") {
        let ghost sections = texts(rule.active_sections@);
        let mut k: usize = 0;
        assert(type_contract_problem(*document, rule@) == or_else(
            missing_section(document.body@, sections, 0),
            decision_problem(document.frontmatter, cl),
        ));
        while k < rule.active_sections.len()
            invariant
                sections == texts(rule.active_sections@),
                k <= rule.active_sections.len(),
                type_contract_problem(*document, rule@) == or_else(
                    missing_section(document.body@, sections, k as int),
                    decision_problem(document.frontmatter, cl),
                ),
            decreases rule.active_sections.len() - k,
        {
            let section = rule.active_sections[k].as_str();
            assert(sections[k as int] == section@);
            if !markdown_has_heading(document.body.as_str(), section) {
                return Err(concat2("active object is missing required section: ", section));
            }
            k = k + 1;
        }
        decision_check(map, claims)
    } else {
        Ok(())
    }
}

/// The type rule registered for `name`.
fn find_type_rule<'a>(types: &'a Vec<(String, TypeRule)>, name: &str) -> (r: Option<&'a TypeRule>)
    ensures
        match r {
            Some(rule) => lookup_rule(type_views(types@), name@) == Some(rule@),
            None => lookup_rule(type_views(types@), name@) is None,
        },
{
    let ghost tv = type_views(types@);
    let mut i: usize = 0;
    assert(tv.skip(0) =~= tv);
    while i < types.len()
        invariant
            tv == type_views(types@),
            i <= types.len(),
            lookup_rule(tv, name@) == lookup_rule(tv.skip(i as int), name@),
        decreases types.len() - i,
    {
        let ghost rest = tv.skip(i as int);
        assert(rest[0] == (types@[i as int].0@, types@[i as int].1@));
        assert(rest.drop_first() =~= tv.skip(i + 1));
        if str_eq(types[i].0.as_str(), name) {
            return Some(&types[i].1);
        }
        i = i + 1;
    }
    None
}

/// The first forbidden field from index `k` on that the map has.
pub open spec fn present_forbidden(map: Yaml, forbidden: Seq<Seq<char>>, k: int) -> Option<Seq<char>>
    decreases forbidden.len() - k,
{
    if k < 0 || k >= forbidden.len() {
        None
    } else if field(map, forbidden[k]) is Some {
        Some(forbidden[k])
    } else {
        present_forbidden(map, forbidden, k + 1)
    }
}

/// The first required field from index `k` on that the map lacks.
pub open spec fn absent_required(map: Yaml, required: Seq<Seq<char>>, k: int) -> Option<Seq<char>>
    decreases required.len() - k,
{
    if k < 0 || k >= required.len() {
        None
    } else {
        or_else(require_problem(map, required[k]), absent_required(map, required, k + 1))
    }
}

/// The forbidden-field message for the first forbidden field from index
/// `k` on that the map has.
pub open spec fn forbidden_message(map: Yaml, t: Seq<char>, forbidden: Seq<Seq<char>>, k: int) -> Option<Seq<char>> {
    match present_forbidden(map, forbidden, k) {
        Some(f) => Some(t + " objects must not contain "@ + f),
        None => None,
    }
}

/// The checks after the type rule's field lists: its type contract, a
/// Reference's source, and the relations.
pub open spec fn contract_rest(
    d: SemanticDocument,
    t: Seq<char>,
    rule: TypeView,
    rules: Seq<(Seq<char>, crate::okf::registries::RuleView)>,
) -> Option<Seq<char>> {
    let map = d.frontmatter;
    or_else(
        type_contract_problem(d, rule),
        or_else(
            if t == "reference"@ {
                match string_field_spec(map, "lifecycle"@) {
                    Err(e) => Some(e),
                    Ok(l) => reference_source_problem(map, l),
                }
            } else {
                None
            },
            relations_shape_problem(map, t, rules),
        ),
    )
}

/// The problem with a document checked against the registries: the
/// document checks, then its type rule's required and forbidden fields,
/// its type contract, a Reference's source, and its relations.
pub open spec fn registered_document_problem(
    d: SemanticDocument,
    registries: (Seq<(Seq<char>, crate::okf::registries::RuleView)>, Seq<(Seq<char>, TypeView)>),
) -> Option<Seq<char>> {
    let map = d.frontmatter;
    or_else(
        document_problem(d),
        match string_field_spec(map, "type"@) {
            Err(e) => Some(e),
            Ok(t) => match lookup_rule(registries.1, t) {
                None => Some("type registry has no rule for "@ + t),
                Some(rule) => or_else(
                    absent_required(map, rule.required_fields, 0),
                    or_else(forbidden_message(map, t, rule.forbidden_fields, 0), contract_rest(d, t, rule, registries.0)),
                ),
            },
        },
    )
}

/// Checks a document and then checks it against the registries.
pub fn validate_document_with_registries(
    document: &SemanticDocument,
    registries: &Registries,
) -> (r: Result<(), String>)
    ensures
        outcome(r) == registered_document_problem(
            *document,
            (relation_views(registries.relations@), type_views(registries.types@)),
        ),
{
    if let Err(e) = validate_document(document) {
        return Err(e);
    }
    let map = &document.frontmatter;
    let object_type = match string_field(map, "type") {
        Err(e) => return Err(e),
        Ok(t) => t,
    };
    let t = object_type.as_str();
    let rule = match find_type_rule(&registries.types, t) {
        None => return Err(concat2("type registry has no rule for ", t)),
        Some(rule) => rule,
    };
    let ghost req = texts(rule.required_fields@);
    let ghost rules = relation_views(registries.relations@);
    let ghost whole = registered_document_problem(
        *document,
        (relation_views(registries.relations@), type_views(registries.types@)),
    );
    let mut k: usize = 0;
    assert(whole == or_else(
        absent_required(*map, req, 0),
        or_else(forbidden_message(*map, t@, rule@.forbidden_fields, 0), contract_rest(*document, t@, rule@, rules)),
    ));
    while k < rule.required_fields.len()
        invariant
            whole == registered_document_problem(
                *document,
                (relation_views(registries.relations@), type_views(registries.types@)),
            ),
            *map == document.frontmatter,
            req == texts(rule.required_fields@),
            k <= rule.required_fields.len(),
            whole == or_else(
                absent_required(*map, req, k as int),
                or_else(forbidden_message(*map, t@, rule@.forbidden_fields, 0), contract_rest(*document, t@, rule@, rules)),
            ),
        decreases rule.required_fields.len() - k,
    {
        assert(req[k as int] == rule.required_fields@[k as int]@);
        assert(absent_required(*map, req, k as int) == or_else(
            require_problem(*map, req[k as int]),
            absent_required(*map, req, k + 1),
        ));
        if let Err(e) = require(map, rule.required_fields[k].as_str()) {
            return Err(e);
        }
        k = k + 1;
    }
    let ghost forb = texts(rule.forbidden_fields@);
    let mut j: usize = 0;
    while j < rule.forbidden_fields.len()
        invariant
            whole == registered_document_problem(
                *document,
                (relation_views(registries.relations@), type_views(registries.types@)),
            ),
            *map == document.frontmatter,
            forb == texts(rule.forbidden_fields@),
            j <= rule.forbidden_fields.len(),
            whole == or_else(forbidden_message(*map, t@, forb, j as int), contract_rest(*document, t@, rule@, rules)),
        decreases rule.forbidden_fields.len() - j,
    {
        let f = rule.forbidden_fields[j].as_str();
        assert(forb[j as int] == f@);
        assert(present_forbidden(*map, forb, j as int) == if field(*map, forb[j as int]) is Some {
            Some(forb[j as int])
        } else {
            present_forbidden(*map, forb, j + 1)
        });
        if map.contains_key(f) {
            return Err(concat3(t, " objects must not contain ", f));
        }
        j = j + 1;
    }
    if let Err(e) = validate_type_contract(document, rule) {
        return Err(e);
    }
    if str_eq(t, "reference") {
        let lifecycle = match string_field(map, "lifecycle") {
            Err(e) => return Err(e),
            Ok(l) => l,
        };
        if let Err(e) = validate_reference_source(map, lifecycle.as_str()) {
            return Err(e);
        }
    }
    validate_relations_shape(map, t, &registries.relations)
}

} // verus!
