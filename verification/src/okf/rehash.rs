//! Recomputing the semantic hashes stored in an object's front matter: each
//! claim's hash first, then the object's, over the updated claims.

use vstd::prelude::*;

use crate::okf::projection::{
    claim_hash, claim_hash_spec, framed_hash, law_claim_hash_ignores_added_administrative_field,
    law_claim_hash_ignores_administrative_fields, law_object_projection_ignores_added_administrative_field,
    law_object_projection_ignores_administrative_fields, object_hash, object_json_entries, object_keys,
    claim_keys, only_key_at, unique_keys,
};
use crate::okf::yaml::{entry_index, is_map, items, key_is, lemma_entry_index, same_tags, untag, Yaml};
use crate::text::{concat2, str_eq};

verus! {

/// `v` is the plain string `t`.
pub open spec fn is_string(v: Yaml, t: Seq<char>) -> bool {
    v matches Yaml::Str(s) && s@ == t
}

/// `after` is `before` with the string key `key` set to the plain string
/// `t`: the first entry with that key keeps its key and takes the new
/// value, or a new entry is appended when there is none.
pub open spec fn set_to_text(before: Seq<(Yaml, Yaml)>, after: Seq<(Yaml, Yaml)>, key: Seq<char>, t: Seq<char>) -> bool {
    match entry_index(before, key) {
        Some(i) => {
            &&& after.len() == before.len()
            &&& after[i].0 == before[i].0
            &&& is_string(after[i].1, t)
            &&& forall|j: int| 0 <= j < before.len() && j != i ==> #[trigger] after[j] == before[j]
        },
        None => {
            &&& after.len() == before.len() + 1
            &&& after.take(before.len() as int) == before
            &&& key_is(after.last().0, key)
            &&& is_string(after.last().1, t)
        },
    }
}

/// `after` is `before` with the string key `key` set to `v`: the first
/// entry with that key keeps its key and takes the new value, or a new
/// entry is appended when there is none.
pub open spec fn set_to(before: Seq<(Yaml, Yaml)>, after: Seq<(Yaml, Yaml)>, key: Seq<char>, v: Yaml) -> bool {
    match entry_index(before, key) {
        Some(i) => {
            &&& after.len() == before.len()
            &&& after[i] == (before[i].0, v)
            &&& forall|j: int| 0 <= j < before.len() && j != i ==> #[trigger] after[j] == before[j]
        },
        None => {
            &&& after.len() == before.len() + 1
            &&& after.take(before.len() as int) == before
            &&& key_is(after.last().0, key)
            &&& after.last().1 == v
        },
    }
}

/// Sets the string key `key` of a mapping to `value` (`Mapping::insert`).
pub fn set_field(map: Yaml, key: &str, value: Yaml) -> (r: Yaml)
    requires
        map is Mapping,
    ensures
        r is Mapping,
        set_to(map->Mapping_0@, r->Mapping_0@, key@, value),
{
    match map {
        Yaml::Mapping(mut es) => {
            let ghost before = es@;
            let mut i: usize = 0;
            let mut found = false;
            while i < es.len()
                invariant_except_break
                    !found,
                invariant
                    es@ == before,
                    i <= es.len(),
                    forall|j: int| 0 <= j < i ==> !key_is(#[trigger] es@[j].0, key@),
                ensures
                    i <= es.len(),
                    forall|j: int| 0 <= j < i ==> !key_is(#[trigger] es@[j].0, key@),
                    found ==> i < es.len() && key_is(es@[i as int].0, key@),
                    !found ==> i == es.len(),
                decreases es.len() - i,
            {
                let hit = match &es[i].0 {
                    Yaml::Str(s) => str_eq(s.as_str(), key),
                    _ => false,
                };
                if hit {
                    found = true;
                    break;
                }
                i = i + 1;
            }
            proof {
                lemma_entry_index(before, key@, i as int);
            }
            if found {
                let (k, _old) = es.remove(i);
                es.insert(i, (k, value));
                assert forall|j: int| 0 <= j < before.len() && j != i implies #[trigger] es@[j] == before[j] by {
                    if j < i {
                        assert(es@[j] == before.remove(i as int)[j]);
                    } else {
                        assert(es@[j] == before.remove(i as int)[j - 1]);
                    }
                }
            } else {
                let k = Yaml::Str(key.to_owned());
                es.push((k, value));
                assert(es@.take(before.len() as int) =~= before);
            }
            Yaml::Mapping(es)
        },
        _ => map,
    }
}

/// Sets the string key `key` of a mapping to the string `value`.
pub fn set_text_field(map: Yaml, key: &str, value: String) -> (r: Yaml)
    requires
        map is Mapping,
    ensures
        r is Mapping,
        set_to_text(map->Mapping_0@, r->Mapping_0@, key@, value@),
        set_to(map->Mapping_0@, r->Mapping_0@, key@, Yaml::Str(value)),
{
    set_field(map, key, Yaml::Str(value))
}

/// The first reason the claims from index `k` on cannot be rehashed: one
/// that is not a mapping, or one whose hash projection fails.
pub open spec fn claims_failure(items: Seq<Yaml>, path: Seq<char>, k: int) -> Option<Seq<char>>
    decreases items.len() - k,
{
    if k < 0 || k >= items.len() {
        None
    } else if !is_map(Some(items[k])) {
        Some(path + ": claim must be a mapping"@)
    } else {
        match claim_hash_spec(untag(items[k])) {
            Err(e) => Some(e),
            Ok(_) => claims_failure(items, path, k + 1),
        }
    }
}

/// Claim `after` is the claim `before`, under the same tags, with its
/// `semantic_hash` set to the claim's hash.
pub open spec fn claim_updated(before: Yaml, after: Yaml) -> bool {
    &&& is_map(Some(before))
    &&& same_tags(before, after)
    &&& untag(after) is Mapping
    &&& claim_hash_spec(untag(before)) is Ok
    &&& set_to_text(untag(before)->Mapping_0@, untag(after)->Mapping_0@, "semantic_hash"@, claim_hash_spec(untag(before))->Ok_0)
}

/// Each claim of `after` is the claim of `before` with its `semantic_hash`
/// set to the claim's hash.
pub open spec fn claims_updated(before: Seq<Yaml>, after: Seq<Yaml>) -> bool {
    &&& after.len() == before.len()
    &&& forall|j: int| 0 <= j < before.len() ==> claim_updated(before[j], #[trigger] after[j])
}

/// The sequence of claims of the front matter, if its `claims` entry holds one.
pub open spec fn claims_list(es: Seq<(Yaml, Yaml)>) -> Option<(int, Seq<Yaml>)> {
    match entry_index(es, "claims"@) {
        Some(c) => match items(Some(es[c].1)) {
            Some(l) => Some((c, l)),
            None => None,
        },
        None => None,
    }
}

/// Why the claims of the front matter cannot be rehashed, if they cannot.
pub open spec fn rehash_failure(es: Seq<(Yaml, Yaml)>, path: Seq<char>) -> Option<Seq<char>> {
    match claims_list(es) {
        Some((c, l)) => claims_failure(l, path, 0),
        None => None,
    }
}

/// `after` is the front matter `before` with each claim rehashed.
pub open spec fn claims_rehashed(before: Seq<(Yaml, Yaml)>, after: Seq<(Yaml, Yaml)>) -> bool {
    match claims_list(before) {
        Some((c, l)) => {
            &&& after.len() == before.len()
            &&& after[c].0 == before[c].0
            &&& same_tags(before[c].1, after[c].1)
            &&& items(Some(after[c].1)) is Some
            &&& claims_updated(l, items(Some(after[c].1))->Some_0)
            &&& forall|j: int| 0 <= j < before.len() && j != c ==> #[trigger] after[j] == before[j]
        },
        None => after == before,
    }
}

/// Stores the hash `h` as the `semantic_hash` of a claim mapping, under
/// whatever tags it carries.
fn set_claim_hash(claim: Yaml, h: String) -> (r: Yaml)
    requires
        is_map(Some(claim)),
    ensures
        untag(r) is Mapping,
        same_tags(claim, r),
        set_to_text(untag(claim)->Mapping_0@, untag(r)->Mapping_0@, "semantic_hash"@, h@),
    decreases claim,
{
    match claim {
        Yaml::Tagged(t, inner) => {
            let r = set_claim_hash(*inner, h);
            Yaml::Tagged(t, Box::new(r))
        },
        _ => set_text_field(claim, "semantic_hash", h),
    }
}

/// Rehashes a sequence of claims, under whatever tags it carries.
#[verifier::loop_isolation(false)]
fn rehash_list(v: Yaml, path: &str) -> (r: Result<Yaml, String>)
    requires
        items(Some(v)) is Some,
    ensures
        match r {
            Ok(out) => claims_failure(items(Some(v))->Some_0, path@, 0) is None && items(Some(out)) is Some
                && same_tags(v, out) && claims_updated(items(Some(v))->Some_0, items(Some(out))->Some_0),
            Err(e) => claims_failure(items(Some(v))->Some_0, path@, 0) == Some(e@),
        },
    decreases v,
{
    match v {
        Yaml::Tagged(t, inner) => match rehash_list(*inner, path) {
            Ok(x) => Ok(Yaml::Tagged(t, Box::new(x))),
            Err(e) => Err(e),
        },
        Yaml::List(mut list) => {
            let ghost all = list@;
            let mut out: Vec<Yaml> = Vec::new();
            let mut j: usize = 0;
            let n = list.len();
            while j < n
                invariant
                    n == all.len(),
                    j <= n,
                    list@ == all.skip(j as int),
                    out.len() == j,
                    claims_failure(all, path@, 0) == claims_failure(all, path@, j as int),
                    forall|q: int| 0 <= q < j ==> claim_updated(all[q], #[trigger] out@[q]),
                decreases n - j,
            {
                assert(all.skip(j as int)[0] == all[j as int]);
                let item = list.remove(0);
                assert(list@ =~= all.skip(j + 1));
                if !item.is_mapping() {
                    return Err(concat2(path, ": claim must be a mapping"));
                }
                let h = match claim_hash(item.untagged()) {
                    Err(e) => {
                        return Err(e);
                    },
                    Ok(h) => h,
                };
                let updated = set_claim_hash(item, h);
                out.push(updated);
                j = j + 1;
            }
            Ok(Yaml::List(out))
        },
        _ => Ok(v),
    }
}

/// Rehashes the claims of a front matter: every claim gets the hash of its
/// projection as its `semantic_hash`. `path` names the file in the error
/// for a claim that is not a mapping.
pub fn rehash_claims(frontmatter: Yaml, path: &str) -> (r: Result<Yaml, String>)
    requires
        frontmatter is Mapping,
    ensures
        match r {
            Ok(out) => rehash_failure(frontmatter->Mapping_0@, path@) is None && out is Mapping && claims_rehashed(
                frontmatter->Mapping_0@,
                out->Mapping_0@,
            ),
            Err(e) => rehash_failure(frontmatter->Mapping_0@, path@) == Some(e@),
        },
{
    match frontmatter {
        Yaml::Mapping(mut es) => {
            let ghost before = es@;
            let mut c: usize = 0;
            let mut found = false;
            while c < es.len()
                invariant_except_break
                    !found,
                invariant
                    es@ == before,
                    c <= es.len(),
                    forall|j: int| 0 <= j < c ==> !key_is(#[trigger] es@[j].0, "claims"@),
                ensures
                    c <= es.len(),
                    forall|j: int| 0 <= j < c ==> !key_is(#[trigger] es@[j].0, "claims"@),
                    found ==> c < es.len() && key_is(es@[c as int].0, "claims"@),
                    !found ==> c == es.len(),
                decreases es.len() - c,
            {
                let hit = match &es[c].0 {
                    Yaml::Str(s) => str_eq(s.as_str(), "claims"),
                    _ => false,
                };
                if hit {
                    found = true;
                    break;
                }
                c = c + 1;
            }
            proof {
                lemma_entry_index(before, "claims"@, c as int);
            }
            if !found {
                return Ok(Yaml::Mapping(es));
            }
            if es[c].1.as_seq().is_none() {
                return Ok(Yaml::Mapping(es));
            }
            let (k, v) = es.remove(c);
            assert(v == before[c as int].1);
            let list = match rehash_list(v, path) {
                Err(e) => {
                    return Err(e);
                },
                Ok(list) => list,
            };
            es.insert(c, (k, list));
            assert forall|q: int| 0 <= q < before.len() && q != c implies #[trigger] es@[q] == before[q] by {
                if q < c {
                    assert(es@[q] == before.remove(c as int)[q]);
                } else {
                    assert(es@[q] == before.remove(c as int)[q - 1]);
                }
            }
            Ok(Yaml::Mapping(es))
        },
        _ => Ok(frontmatter),
    }
}

/// Recomputes the hashes stored in a front matter: the claims are rehashed,
/// then the object's hash over them is stored as its `semantic_hash`.
pub fn rehash(frontmatter: Yaml, path: &str, body: &str) -> (r: Result<Yaml, String>)
    requires
        frontmatter is Mapping,
    ensures
        match r {
            Ok(out) => rehash_failure(frontmatter->Mapping_0@, path@) is None && out is Mapping && exists|mid: Seq<
                (Yaml, Yaml),
            >|
                {
                    &&& claims_rehashed(frontmatter->Mapping_0@, mid)
                    &&& framed_hash(object_json_entries(mid), body@) is Ok
                    &&& set_to_text(mid, out->Mapping_0@, "semantic_hash"@, framed_hash(object_json_entries(mid), body@)->Ok_0)
                },
            Err(e) => rehash_failure(frontmatter->Mapping_0@, path@) == Some(e@) || (rehash_failure(
                frontmatter->Mapping_0@,
                path@,
            ) is None && exists|mid: Seq<(Yaml, Yaml)>|
                {
                    &&& claims_rehashed(frontmatter->Mapping_0@, mid)
                    &&& framed_hash(object_json_entries(mid), body@) == Err::<Seq<char>, Seq<char>>(e@)
                }),
        },
{
    let mid = match rehash_claims(frontmatter, path) {
        Err(e) => {
            return Err(e);
        },
        Ok(m) => m,
    };
    let h = match object_hash(&mid, body) {
        Err(e) => {
            return Err(e);
        },
        Ok(h) => h,
    };
    let ghost mid_es = mid->Mapping_0@;
    let out = set_text_field(mid, "semantic_hash", h);
    assert(claims_rehashed(frontmatter->Mapping_0@, mid_es));
    Ok(out)
}

proof fn lemma_only_key_index(es: Seq<(Yaml, Yaml)>, i: int, key: Seq<char>)
    requires
        only_key_at(es, i, key),
    ensures
        entry_index(es, key) == Some(i),
{
    lemma_entry_index(es, key, i);
}

/// After a rehash, a claim that held `semantic_hash` once stores the hash of
/// its own projection there.
pub proof fn law_rehash_stores_the_claim_hash(before: Yaml, after: Yaml, i: int)
    requires
        claim_updated(before, after),
        only_key_at(untag(before)->Mapping_0@, i, "semantic_hash"@),
    ensures
        is_string(untag(after)->Mapping_0@[i].1, claim_hash_spec(untag(before))->Ok_0),
        claim_hash_spec(untag(after)) == claim_hash_spec(untag(before)),
{
    let es = untag(before)->Mapping_0@;
    let es2 = untag(after)->Mapping_0@;
    lemma_only_key_index(es, i, "semantic_hash"@);
    assert(es2 =~= es.update(i, (es[i].0, es2[i].1)));
    assert(claim_keys().contains("semantic_hash"@)) by {
        assert(claim_keys()[0] == "semantic_hash"@);
    }
    law_claim_hash_ignores_administrative_fields(untag(before), untag(after), i, "semantic_hash"@, es2[i].1);
}

/// After a rehash, front matter that held `semantic_hash` once stores the
/// hash of its projection (over the rehashed claims) there, so the stored
/// and the computed object hash agree.
pub proof fn law_rehash_stores_the_object_hash(
    before: Seq<(Yaml, Yaml)>,
    mid: Seq<(Yaml, Yaml)>,
    after: Seq<(Yaml, Yaml)>,
    i: int,
    body: Seq<char>,
)
    requires
        only_key_at(before, i, "semantic_hash"@),
        claims_rehashed(before, mid),
        framed_hash(object_json_entries(mid), body) is Ok,
        set_to_text(mid, after, "semantic_hash"@, framed_hash(object_json_entries(mid), body)->Ok_0),
    ensures
        is_string(after[i].1, framed_hash(object_json_entries(mid), body)->Ok_0),
        framed_hash(object_json_entries(after), body) == framed_hash(object_json_entries(mid), body),
{
    assert(mid.len() == before.len());
    assert forall|j: int| 0 <= j < mid.len() implies #[trigger] mid[j].0 == before[j].0 by {
        if let Some((c, items)) = claims_list(before) {
            if j != c {
                assert(mid[j] == before[j]);
            }
        }
    }
    assert(only_key_at(mid, i, "semantic_hash"@));
    lemma_only_key_index(mid, i, "semantic_hash"@);
    assert(after =~= mid.update(i, (mid[i].0, after[i].1)));
    assert(object_keys().contains("semantic_hash"@)) by {
        assert(object_keys()[4] == "semantic_hash"@);
    }
    law_object_projection_ignores_administrative_fields(mid, after, i, "semantic_hash"@, after[i].1);
}

/// No entry has the string key `key`.
pub open spec fn lacks_key(es: Seq<(Yaml, Yaml)>, key: Seq<char>) -> bool {
    forall|j: int| 0 <= j < es.len() ==> !key_is(#[trigger] es[j].0, key)
}

proof fn lemma_appended(before: Seq<(Yaml, Yaml)>, after: Seq<(Yaml, Yaml)>, key: Seq<char>, t: Seq<char>)
    requires
        lacks_key(before, key),
        unique_keys(before),
        set_to_text(before, after, key, t),
    ensures
        after == before.push(after.last()),
        unique_keys(after),
        key_is(after.last().0, key),
        is_string(after.last().1, t),
{
    lemma_entry_index(before, key, before.len() as int);
    let n = before.len() as int;
    assert(after =~= before.push(after.last())) by {
        assert forall|j: int| 0 <= j < n implies after[j] == before[j] by {
            assert(after.take(n)[j] == after[j]);
        }
    }
    assert forall|i: int, j: int, k: Seq<char>|
        0 <= i < after.len() && 0 <= j < after.len() && i != j && #[trigger] key_is(after[i].0, k) implies !#[trigger] key_is(
        after[j].0,
        k,
    ) by {
        if i == n {
            assert(k == key);
            assert(after[j] == before[j]);
        } else if j == n {
            assert(after[i] == before[i]);
            if key_is(after[j].0, k) {
                assert(k == key);
            }
        } else {
            assert(after[i] == before[i] && after[j] == before[j]);
        }
    }
}

/// After a rehash, a claim with distinct keys that had no `semantic_hash`
/// gets one appended, which holds the hash of the claim's own projection;
/// the claim's hash is unchanged by it.
pub proof fn law_rehash_adds_the_claim_hash(before: Yaml, after: Yaml)
    requires
        claim_updated(before, after),
        lacks_key(untag(before)->Mapping_0@, "semantic_hash"@),
        unique_keys(untag(before)->Mapping_0@),
        untag(before)->Mapping_0@.len() < usize::MAX,
    ensures
        untag(after)->Mapping_0@ == untag(before)->Mapping_0@.push(untag(after)->Mapping_0@.last()),
        key_is(untag(after)->Mapping_0@.last().0, "semantic_hash"@),
        is_string(untag(after)->Mapping_0@.last().1, claim_hash_spec(untag(before))->Ok_0),
        claim_hash_spec(untag(after)) == claim_hash_spec(untag(before)),
{
    let es = untag(before)->Mapping_0@;
    let es2 = untag(after)->Mapping_0@;
    lemma_appended(es, es2, "semantic_hash"@, claim_hash_spec(untag(before))->Ok_0);
    assert(claim_keys().contains("semantic_hash"@)) by {
        assert(claim_keys()[0] == "semantic_hash"@);
    }
    law_claim_hash_ignores_added_administrative_field(untag(before), untag(after), es2.last(), "semantic_hash"@);
}

/// After a rehash of front matter with distinct keys that had no
/// `semantic_hash`, one is appended, which holds the hash of the projection
/// over the rehashed claims, so the stored and the computed object hash
/// agree.
pub proof fn law_rehash_adds_the_object_hash(
    before: Seq<(Yaml, Yaml)>,
    mid: Seq<(Yaml, Yaml)>,
    after: Seq<(Yaml, Yaml)>,
    body: Seq<char>,
)
    requires
        lacks_key(before, "semantic_hash"@),
        unique_keys(before),
        before.len() < usize::MAX,
        claims_rehashed(before, mid),
        framed_hash(object_json_entries(mid), body) is Ok,
        set_to_text(mid, after, "semantic_hash"@, framed_hash(object_json_entries(mid), body)->Ok_0),
    ensures
        after == mid.push(after.last()),
        key_is(after.last().0, "semantic_hash"@),
        is_string(after.last().1, framed_hash(object_json_entries(mid), body)->Ok_0),
        framed_hash(object_json_entries(after), body) == framed_hash(object_json_entries(mid), body),
{
    assert(mid.len() == before.len());
    assert forall|j: int| 0 <= j < mid.len() implies #[trigger] mid[j].0 == before[j].0 by {
        if let Some((c, items)) = claims_list(before) {
            if j != c {
                assert(mid[j] == before[j]);
            }
        }
    }
    assert forall|j: int| 0 <= j < mid.len() implies !key_is(#[trigger] mid[j].0, "semantic_hash"@) by {
        assert(mid[j].0 == before[j].0);
    }
    assert forall|i: int, j: int, k: Seq<char>|
        0 <= i < mid.len() && 0 <= j < mid.len() && i != j && #[trigger] key_is(mid[i].0, k) implies !#[trigger] key_is(
        mid[j].0,
        k,
    ) by {
        assert(mid[i].0 == before[i].0 && mid[j].0 == before[j].0);
    }
    lemma_appended(mid, after, "semantic_hash"@, framed_hash(object_json_entries(mid), body)->Ok_0);
    assert(object_keys().contains("semantic_hash"@)) by {
        assert(object_keys()[4] == "semantic_hash"@);
    }
    law_object_projection_ignores_added_administrative_field(mid, after.last(), "semantic_hash"@);
}

} // verus!
