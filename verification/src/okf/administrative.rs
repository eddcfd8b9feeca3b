//! Administrative changes to front matter: what it means for two objects,
//! or two claims, to differ only in their administrative fields, and that
//! such changes leave the semantic hashes alone.

use vstd::prelude::*;

use crate::okf::projection::{
    agree_outside, claim_entry_text, claim_hash_spec, claim_json, claim_keys, claims_agree, claims_correspond,
    entries_correspond, law_claim_hash_depends_only_on_semantic_fields, law_object_hash_depends_only_on_semantic_fields,
    none_of, object_hash_spec, object_json, object_keys, objects_agree, unique_keys,
};
use crate::okf::yaml::{key_is, Yaml};

verus! {

/// Every entry of `es1` outside the fields `keys` stands in `es2` with the
/// same key and the same value.
#[verifier::opaque]
pub open spec fn kept_outside(es1: Seq<(Yaml, Yaml)>, es2: Seq<(Yaml, Yaml)>, keys: Seq<Seq<char>>) -> bool {
    forall|i: int|
        0 <= i < es1.len() && none_of(#[trigger] es1[i].0, keys) ==> exists|j: int|
            0 <= j < es2.len() && #[trigger] es2[j].0 == es1[i].0 && es2[j].1 == es1[i].1
}

/// `es1` and `es2` hold the same entries outside the fields `keys`: they
/// differ only in which of `keys` they hold, where, and with what values.
pub open spec fn same_outside(es1: Seq<(Yaml, Yaml)>, es2: Seq<(Yaml, Yaml)>, keys: Seq<Seq<char>>) -> bool {
    kept_outside(es1, es2, keys) && kept_outside(es2, es1, keys)
}

/// The claim `c2` is the claim `c1` with any of its administrative fields
/// (`semantic_hash`, `lifecycle`, `freshness`) set, added or removed, all
/// at once: both are mappings with distinct keys, and they hold the same
/// entries outside those fields.
pub open spec fn claim_differs_only_in_administrative_fields(c1: Yaml, c2: Yaml) -> bool {
    &&& c1 is Mapping
    &&& c2 is Mapping
    &&& unique_keys(c1->Mapping_0@)
    &&& unique_keys(c2->Mapping_0@)
    &&& c1->Mapping_0@.len() <= usize::MAX
    &&& c2->Mapping_0@.len() <= usize::MAX
    &&& same_outside(c1->Mapping_0@, c2->Mapping_0@, claim_keys())
}

/// Two claims lists hold as many claims, and each claim of one is the
/// claim at the same place in the other, or differs from it only in its
/// administrative fields.
pub open spec fn claims_differ_only_in_administrative_fields(v1: Yaml, v2: Yaml) -> bool {
    &&& v1 is List
    &&& v2 is List
    &&& v1->List_0@.len() == v2->List_0@.len()
    &&& forall|k: int|
        0 <= k < v1->List_0@.len() ==> #[trigger] v1->List_0@[k] == v2->List_0@[k]
            || claim_differs_only_in_administrative_fields(v1->List_0@[k], v2->List_0@[k])
}

/// Every entry of the front matter `es1` outside the object's
/// administrative fields stands in `es2` with the same key, and with the
/// same value or, for `claims`, a list that differs from it only in its
/// claims' administrative fields.
#[verifier::opaque]
pub open spec fn kept_outside_administration(es1: Seq<(Yaml, Yaml)>, es2: Seq<(Yaml, Yaml)>) -> bool {
    forall|i: int|
        0 <= i < es1.len() && none_of(#[trigger] es1[i].0, object_keys()) ==> exists|j: int|
            0 <= j < es2.len() && #[trigger] es2[j].0 == es1[i].0 && (es2[j].1 == es1[i].1 || (key_is(es1[i].0, "claims"@)
                && claims_differ_only_in_administrative_fields(es1[i].1, es2[j].1)))
}

/// The front matter `es2` is `es1` with administrative fields set, added or
/// removed, any number at once: those of the object (`created_at`,
/// `updated_at`, `generated`, `verified`, `semantic_hash`, `lifecycle`,
/// `freshness`) and those of each of its claims. Every other entry of
/// either stands in the other with the same key and the same value, but
/// for `claims`, whose lists may differ in their claims' administrative
/// fields.
pub open spec fn differs_only_in_administrative_fields(es1: Seq<(Yaml, Yaml)>, es2: Seq<(Yaml, Yaml)>) -> bool {
    kept_outside_administration(es1, es2) && kept_outside_administration(es2, es1)
}

proof fn lemma_same_value_text(e1: (Yaml, Yaml), e2: (Yaml, Yaml))
    requires
        e1.1 == e2.1,
    ensures
        claim_entry_text()(e1) == claim_entry_text()(e2),
{
}

proof fn lemma_kept_texts(es1: Seq<(Yaml, Yaml)>, es2: Seq<(Yaml, Yaml)>, keys: Seq<Seq<char>>)
    requires
        kept_outside(es1, es2, keys),
    ensures
        forall|i: int|
            0 <= i < es1.len() && none_of(#[trigger] es1[i].0, keys) ==> exists|j: int|
                0 <= j < es2.len() && #[trigger] es2[j].0 == es1[i].0 && claim_entry_text()(es2[j])
                    == claim_entry_text()(es1[i]),
{
    reveal(kept_outside);
    assert forall|i: int| 0 <= i < es1.len() && none_of(#[trigger] es1[i].0, keys) implies exists|j: int|
        0 <= j < es2.len() && #[trigger] es2[j].0 == es1[i].0 && claim_entry_text()(es2[j]) == claim_entry_text()(
            es1[i],
        ) by {
        let j = choose|j: int| 0 <= j < es2.len() && #[trigger] es2[j].0 == es1[i].0 && es2[j].1 == es1[i].1;
        lemma_same_value_text(es2[j], es1[i]);
    }
}

proof fn lemma_same_outside_agrees(es1: Seq<(Yaml, Yaml)>, es2: Seq<(Yaml, Yaml)>, keys: Seq<Seq<char>>)
    requires
        same_outside(es1, es2, keys),
    ensures
        agree_outside(es1, es2, keys, claim_entry_text()),
{
    lemma_kept_texts(es1, es2, keys);
    lemma_kept_texts(es2, es1, keys);
}

proof fn lemma_claims_differ_agree(v1: Yaml, v2: Yaml)
    requires
        claims_differ_only_in_administrative_fields(v1, v2),
    ensures
        claims_agree(v1, v2),
{
    reveal(claims_agree);
    let items1 = v1->List_0@;
    let items2 = v2->List_0@;
    assert forall|k: int| 0 <= k < items1.len() implies claims_correspond(#[trigger] items1[k], items2[k]) by {
        if items1[k] != items2[k] {
            assert(claim_differs_only_in_administrative_fields(items1[k], items2[k]));
            lemma_same_outside_agrees(items1[k]->Mapping_0@, items2[k]->Mapping_0@, claim_keys());
        }
    }
}

proof fn lemma_claims_differ_symmetric(v1: Yaml, v2: Yaml)
    requires
        claims_differ_only_in_administrative_fields(v1, v2),
    ensures
        claims_differ_only_in_administrative_fields(v2, v1),
{
    let items1 = v1->List_0@;
    let items2 = v2->List_0@;
    assert forall|k: int| 0 <= k < items2.len() implies #[trigger] items2[k] == items1[k]
        || claim_differs_only_in_administrative_fields(items2[k], items1[k]) by {
        assert(items1[k] == items2[k] || claim_differs_only_in_administrative_fields(items1[k], items2[k]));
    }
}

proof fn lemma_kept_forward(es1: Seq<(Yaml, Yaml)>, es2: Seq<(Yaml, Yaml)>)
    requires
        kept_outside_administration(es1, es2),
    ensures
        forall|i: int|
            0 <= i < es1.len() && none_of(#[trigger] es1[i].0, object_keys()) ==> exists|j: int|
                0 <= j < es2.len() && #[trigger] es2[j].0 == es1[i].0 && entries_correspond(es1[i], es2[j]),
{
    reveal(kept_outside_administration);
    assert forall|i: int| 0 <= i < es1.len() && none_of(#[trigger] es1[i].0, object_keys()) implies exists|j: int|
        0 <= j < es2.len() && #[trigger] es2[j].0 == es1[i].0 && entries_correspond(es1[i], es2[j]) by {
        let j = choose|j: int|
            0 <= j < es2.len() && #[trigger] es2[j].0 == es1[i].0 && (es2[j].1 == es1[i].1 || (key_is(
                es1[i].0,
                "claims"@,
            ) && claims_differ_only_in_administrative_fields(es1[i].1, es2[j].1)));
        if es2[j].1 != es1[i].1 {
            lemma_claims_differ_agree(es1[i].1, es2[j].1);
        }
    }
}

proof fn lemma_kept_backward(es1: Seq<(Yaml, Yaml)>, es2: Seq<(Yaml, Yaml)>)
    requires
        kept_outside_administration(es2, es1),
    ensures
        forall|j: int|
            0 <= j < es2.len() && none_of(#[trigger] es2[j].0, object_keys()) ==> exists|i: int|
                0 <= i < es1.len() && #[trigger] es1[i].0 == es2[j].0 && entries_correspond(es1[i], es2[j]),
{
    reveal(kept_outside_administration);
    assert forall|j: int| 0 <= j < es2.len() && none_of(#[trigger] es2[j].0, object_keys()) implies exists|i: int|
        0 <= i < es1.len() && #[trigger] es1[i].0 == es2[j].0 && entries_correspond(es1[i], es2[j]) by {
        let i = choose|i: int|
            0 <= i < es1.len() && #[trigger] es1[i].0 == es2[j].0 && (es1[i].1 == es2[j].1 || (key_is(
                es2[j].0,
                "claims"@,
            ) && claims_differ_only_in_administrative_fields(es2[j].1, es1[i].1)));
        if es1[i].1 != es2[j].1 {
            lemma_claims_differ_symmetric(es2[j].1, es1[i].1);
            lemma_claims_differ_agree(es1[i].1, es2[j].1);
        }
    }
}

proof fn lemma_differs_agree(es1: Seq<(Yaml, Yaml)>, es2: Seq<(Yaml, Yaml)>)
    requires
        differs_only_in_administrative_fields(es1, es2),
    ensures
        objects_agree(es1, es2),
{
    lemma_kept_forward(es1, es2);
    lemma_kept_backward(es1, es2);
}

/// A claim's semantic hash ignores its administrative fields
/// (`semantic_hash`, `lifecycle`, `freshness`): setting, adding or removing
/// any of them, all at once, leaves its hash projection and hash as they
/// were, and a claim that projects still projects.
pub proof fn law_claim_hash_ignores_all_administrative_fields(c1: Yaml, c2: Yaml)
    requires
        claim_differs_only_in_administrative_fields(c1, c2),
    ensures
        claim_json(c2) is Ok <==> claim_json(c1) is Ok,
        claim_json(c1) is Ok ==> claim_json(c2) == claim_json(c1),
        claim_json(c1) is Ok ==> claim_hash_spec(c2) == claim_hash_spec(c1),
{
    lemma_same_outside_agrees(c1->Mapping_0@, c2->Mapping_0@, claim_keys());
    law_claim_hash_depends_only_on_semantic_fields(c1, c2);
}

/// An object's semantic hash ignores its administrative fields
/// (`created_at`, `updated_at`, `generated`, `verified`, `semantic_hash`,
/// `lifecycle`, `freshness`) and those of its claims (`semantic_hash`,
/// `lifecycle`, `freshness`): setting, adding or removing any of them, all
/// at once, leaves the hash projection and the hash as they were, and front
/// matter that projects still projects.
pub proof fn law_object_hash_ignores_all_administrative_fields(m1: Yaml, m2: Yaml, body: Seq<char>)
    requires
        m1 is Mapping,
        m2 is Mapping,
        m1->Mapping_0@.len() <= usize::MAX,
        m2->Mapping_0@.len() <= usize::MAX,
        unique_keys(m1->Mapping_0@),
        unique_keys(m2->Mapping_0@),
        differs_only_in_administrative_fields(m1->Mapping_0@, m2->Mapping_0@),
    ensures
        object_json(m2) is Ok <==> object_json(m1) is Ok,
        object_json(m1) is Ok ==> object_json(m2) == object_json(m1),
        object_json(m1) is Ok ==> object_hash_spec(m2, body) == object_hash_spec(m1, body),
{
    let es1 = m1->Mapping_0@;
    let es2 = m2->Mapping_0@;
    if object_json(m1) is Ok {
        lemma_differs_agree(es1, es2);
        law_object_hash_depends_only_on_semantic_fields(m1, m2, body);
    }
    if object_json(m2) is Ok {
        lemma_differs_agree(es2, es1);
        law_object_hash_depends_only_on_semantic_fields(m2, m1, body);
    }
}

} // verus!
