//! Effective freshness: an object's own freshness state combined with that
//! of the objects it derives from, is supported by, or depends on.

use vstd::prelude::*;

use crate::okf::document::SemanticDocument;
use crate::okf::yaml::{field, is_map, items, str_field, text, Yaml};
use crate::text::str_eq;

verus! {

/// The number of documents with an ID outside `visited`.
pub open spec fn unvisited(docs: Seq<SemanticDocument>, visited: Set<Seq<char>>) -> nat
    decreases docs.len(),
{
    if docs.len() == 0 {
        0
    } else {
        unvisited(docs.drop_last(), visited) + match str_field(docs.last().frontmatter, "id"@) {
            Some(id) => if visited.contains(id) {
                0nat
            } else {
                1nat
            },
            None => 0nat,
        }
    }
}

/// Visiting more IDs leaves no more unvisited documents.
pub proof fn lemma_unvisited_mono(docs: Seq<SemanticDocument>, a: Set<Seq<char>>, b: Set<Seq<char>>)
    requires
        a.subset_of(b),
    ensures
        unvisited(docs, b) <= unvisited(docs, a),
    decreases docs.len(),
{
    if docs.len() > 0 {
        lemma_unvisited_mono(docs.drop_last(), a, b);
    }
}

/// Visiting the ID of some document leaves fewer unvisited documents.
pub proof fn lemma_unvisited_insert(docs: Seq<SemanticDocument>, a: Set<Seq<char>>, id: Seq<char>, k: int)
    requires
        0 <= k < docs.len(),
        str_field(docs[k].frontmatter, "id"@) == Some(id),
        !a.contains(id),
    ensures
        unvisited(docs, a.insert(id)) < unvisited(docs, a),
    decreases docs.len(),
{
    lemma_unvisited_mono(docs.drop_last(), a, a.insert(id));
    if k < docs.len() - 1 {
        lemma_unvisited_insert(docs.drop_last(), a, id, k);
    }
}

/// The first document with the ID `id`.
pub open spec fn first_doc(docs: Seq<SemanticDocument>, id: Seq<char>) -> Option<int>
    decreases docs.len(),
{
    if docs.len() == 0 {
        None
    } else if str_field(docs[0].frontmatter, "id"@) == Some(id) {
        Some(0)
    } else {
        match first_doc(docs.drop_first(), id) {
            Some(i) => Some(i + 1),
            None => None,
        }
    }
}

pub proof fn lemma_first_doc(docs: Seq<SemanticDocument>, id: Seq<char>)
    ensures
        match first_doc(docs, id) {
            Some(i) => 0 <= i < docs.len() && str_field(docs[i].frontmatter, "id"@) == Some(id),
            None => forall|j: int| 0 <= j < docs.len() ==> #[trigger] str_field(docs[j].frontmatter, "id"@) != Some(id),
        },
    decreases docs.len(),
{
    if docs.len() > 0 {
        lemma_first_doc(docs.drop_first(), id);
        if first_doc(docs, id) is None {
            assert forall|j: int| 0 <= j < docs.len() implies #[trigger] str_field(docs[j].frontmatter, "id"@) != Some(id) by {
                if j > 0 {
                    assert(docs.drop_first()[j - 1] == docs[j]);
                }
            }
        }
    }
}

/// A document's own freshness state (`unknown` when it records none).
pub open spec fn local_state(d: SemanticDocument) -> Seq<char> {
    match field(d.frontmatter, "freshness"@) {
        Some(f) => match str_field(f, "state"@) {
            Some(s) => s,
            None => "unknown"@,
        },
        None => "unknown"@,
    }
}

/// The relation kinds that carry freshness.
pub open spec fn carries_freshness(name: Seq<char>) -> bool {
    name == "derived_from"@ || name == "supported_by"@ || name == "depends_on"@
}

/// The target object of a freshness-carrying relation, if `rel` is one.
pub open spec fn dependency_target(rel: Yaml) -> Option<Seq<char>> {
    if !is_map(Some(rel)) {
        None
    } else {
        let name = match str_field(rel, "type"@) {
            Some(n) => n,
            None => Seq::empty(),
        };
        if !carries_freshness(name) {
            None
        } else {
            match field(rel, "target"@) {
                Some(t) => str_field(t, "object"@),
                None => None,
            }
        }
    }
}

/// The relations of a document (none when it has no sequence of them).
pub open spec fn doc_relations(d: SemanticDocument) -> Seq<Yaml> {
    match items(field(d.frontmatter, "relations"@)) {
        Some(l) => l,
        None => Seq::empty(),
    }
}

/// The verdict once every dependency has been looked at.
pub open spec fn verdict(local: Seq<char>, unknown: bool, present: bool) -> Seq<char> {
    if unknown {
        "unknown"@
    } else if local == "not_applicable"@ && !present {
        "not_applicable"@
    } else {
        "fresh"@
    }
}

/// The effective freshness of `id` and the IDs visited afterwards, given
/// the IDs already visited: an ID seen before, or without a document, is
/// `unknown`; a stale object is stale; otherwise it is stale when a
/// dependency is, unknown when its own state or a dependency's is unknown,
/// `not_applicable` when it says so and has no dependency, and fresh.
pub open spec fn freshness_of(docs: Seq<SemanticDocument>, id: Seq<char>, visited: Set<Seq<char>>) -> (
    Seq<char>,
    Set<Seq<char>>,
)
    decreases unvisited(docs, visited), 0nat, 0nat,
{
    if visited.contains(id) {
        ("unknown"@, visited)
    } else {
        let v1 = visited.insert(id);
        match first_doc(docs, id) {
            None => ("unknown"@, v1),
            Some(i) => {
                let d = docs[i];
                let local = local_state(d);
                if local == "stale"@ {
                    ("stale"@, v1)
                } else {
                    proof {
                        lemma_first_doc(docs, id);
                        lemma_unvisited_insert(docs, visited, id, i);
                    }
                    dependencies(docs, doc_relations(d), 0, v1, local == "unknown"@, false, local)
                }
            },
        }
    }
}

/// Looks at the relations from index `k` on.
pub open spec fn dependencies(
    docs: Seq<SemanticDocument>,
    rels: Seq<Yaml>,
    k: int,
    visited: Set<Seq<char>>,
    unknown: bool,
    present: bool,
    local: Seq<char>,
) -> (Seq<char>, Set<Seq<char>>)
    decreases unvisited(docs, visited), 1nat, if k < rels.len() {
        (rels.len() - k) as nat
    } else {
        0nat
    },
{
    if k < 0 || k >= rels.len() {
        (verdict(local, unknown, present), visited)
    } else {
        match dependency_target(rels[k]) {
            None => dependencies(docs, rels, k + 1, visited, unknown, present, local),
            Some(target) => {
                let (r, v2) = freshness_of(docs, target, visited);
                let v3 = visited.union(v2);
                proof {
                    lemma_unvisited_mono(docs, visited, v3);
                }
                if r == "stale"@ {
                    ("stale"@, v3)
                } else {
                    dependencies(docs, rels, k + 1, v3, unknown || r == "unknown"@, true, local)
                }
            },
        }
    }
}

/// The visited IDs only grow.
pub proof fn lemma_freshness_grows(docs: Seq<SemanticDocument>, id: Seq<char>, visited: Set<Seq<char>>)
    ensures
        visited.subset_of(freshness_of(docs, id, visited).1),
    decreases unvisited(docs, visited), 0nat, 0nat,
{
    if !visited.contains(id) {
        let v1 = visited.insert(id);
        match first_doc(docs, id) {
            None => {},
            Some(i) => {
                let d = docs[i];
                let local = local_state(d);
                if local != "stale"@ {
                    lemma_first_doc(docs, id);
                    lemma_unvisited_insert(docs, visited, id, i);
                    lemma_dependencies_grow(docs, doc_relations(d), 0, v1, local == "unknown"@, false, local);
                }
            },
        }
    }
}

/// The visited IDs only grow.
pub proof fn lemma_dependencies_grow(
    docs: Seq<SemanticDocument>,
    rels: Seq<Yaml>,
    k: int,
    visited: Set<Seq<char>>,
    unknown: bool,
    present: bool,
    local: Seq<char>,
)
    ensures
        visited.subset_of(dependencies(docs, rels, k, visited, unknown, present, local).1),
    decreases unvisited(docs, visited), 1nat, if k < rels.len() {
        (rels.len() - k) as nat
    } else {
        0nat
    },
{
    if 0 <= k < rels.len() {
        match dependency_target(rels[k]) {
            None => lemma_dependencies_grow(docs, rels, k + 1, visited, unknown, present, local),
            Some(target) => {
                let (r, v2) = freshness_of(docs, target, visited);
                let v3 = visited.union(v2);
                lemma_unvisited_mono(docs, visited, v3);
                if r != "stale"@ {
                    lemma_dependencies_grow(docs, rels, k + 1, v3, unknown || r == "unknown"@, true, local);
                }
            },
        }
    }
}

/// The set view of the visited IDs.
pub open spec fn visited_set(v: Seq<String>) -> Set<Seq<char>> {
    v.map_values(|s: String| s@).to_set()
}

fn visited_contains(v: &Vec<String>, id: &str) -> (b: bool)
    ensures
        b == visited_set(v@).contains(id@),
{
    let mut i: usize = 0;
    while i < v.len()
        invariant
            i <= v.len(),
            forall|j: int| 0 <= j < i ==> #[trigger] v@[j]@ != id@,
        decreases v.len() - i,
    {
        if str_eq(v[i].as_str(), id) {
            assert(v@.map_values(|s: String| s@)[i as int] == id@);
            return true;
        }
        i = i + 1;
    }
    proof {
        let views = v@.map_values(|s: String| s@);
        if visited_set(v@).contains(id@) {
            let j = choose|j: int| 0 <= j < views.len() && #[trigger] views[j] == id@;
            assert(v@[j]@ == id@);
        }
    }
    false
}

fn first_doc_exec(docs: &[SemanticDocument], id: &str) -> (r: Option<usize>)
    ensures
        match r {
            Some(i) => first_doc(docs@, id@) == Some(i as int) && i < docs.len(),
            None => first_doc(docs@, id@) is None,
        },
{
    let mut i: usize = 0;
    assert(docs@.skip(0) =~= docs@);
    while i < docs.len()
        invariant
            i <= docs.len(),
            forall|j: int| 0 <= j < i ==> #[trigger] str_field(docs@[j].frontmatter, "id"@) != Some(id@),
        decreases docs.len() - i,
    {
        let hit = match docs[i].frontmatter.get_str("id") {
            Some(s) => str_eq(s, id),
            None => false,
        };
        if hit {
            proof {
                lemma_first_doc(docs@, id@);
                match first_doc(docs@, id@) {
                    Some(k) => {
                        lemma_first_doc_least(docs@, id@, i as int);
                    },
                    None => {},
                }
            }
            return Some(i);
        }
        i = i + 1;
    }
    proof {
        lemma_first_doc(docs@, id@);
        if let Some(k) = first_doc(docs@, id@) {
            assert(str_field(docs@[k].frontmatter, "id"@) == Some(id@));
        }
    }
    None
}

/// The first document with an ID comes before every other with that ID.
pub proof fn lemma_first_doc_least(docs: Seq<SemanticDocument>, id: Seq<char>, i: int)
    requires
        0 <= i < docs.len(),
        str_field(docs[i].frontmatter, "id"@) == Some(id),
        forall|j: int| 0 <= j < i ==> #[trigger] str_field(docs[j].frontmatter, "id"@) != Some(id),
    ensures
        first_doc(docs, id) == Some(i),
    decreases i,
{
    if i > 0 {
        let rest = docs.drop_first();
        assert forall|j: int| 0 <= j < i - 1 implies #[trigger] str_field(rest[j].frontmatter, "id"@) != Some(id) by {
            assert(rest[j] == docs[j + 1]);
        }
        assert(rest[i - 1] == docs[i]);
        lemma_first_doc_least(rest, id, i - 1);
    }
}

fn local_state_exec(d: &SemanticDocument) -> (s: &str)
    ensures
        s@ == local_state(*d),
{
    match d.frontmatter.get("freshness") {
        Some(f) => match f.get_str("state") {
            Some(s) => s,
            None => "unknown",
        },
        None => "unknown",
    }
}

fn dependency_target_exec(rel: &Yaml) -> (r: Option<&str>)
    ensures
        match r {
            Some(t) => dependency_target(*rel) == Some(t@),
            None => dependency_target(*rel) is None,
        },
{
    if !rel.is_mapping() {
        return None;
    }
    let name = match rel.get_str("type") {
        Some(n) => n,
        None => "",
    };
    proof {
        reveal_strlit("");
        assert(""@ =~= Seq::<char>::empty());
        assert(name@ == match str_field(*rel, "type"@) {
            Some(n) => n,
            None => Seq::<char>::empty(),
        });
    }
    if !(str_eq(name, "derived_from") || str_eq(name, "supported_by") || str_eq(name, "depends_on")) {
        return None;
    }
    match rel.get("target") {
        Some(t) => t.get_str("object"),
        None => None,
    }
}

fn freshness_exec(docs: &[SemanticDocument], id: &str, visiting: &mut Vec<String>) -> (r: String)
    ensures
        (r@, visited_set(final(visiting)@)) == freshness_of(docs@, id@, visited_set(old(visiting)@)),
    decreases unvisited(docs@, visited_set(old(visiting)@)),
{
    let ghost v0 = visited_set(visiting@);
    if visited_contains(visiting, id) {
        return "unknown".to_owned();
    }
    let ghost ov = visiting@.map_values(|s: String| s@);
    visiting.push(id.to_owned());
    let ghost v1 = visited_set(visiting@);
    proof {
        ov.lemma_push_to_set_commute(id@);
        assert(visiting@.map_values(|s: String| s@) =~= ov.push(id@));
        assert(v1 == v0.insert(id@));
    }
    let i = match first_doc_exec(docs, id) {
        None => return "unknown".to_owned(),
        Some(i) => i,
    };
    let d = &docs[i];
    let local = local_state_exec(d);
    if str_eq(local, "stale") {
        return "stale".to_owned();
    }
    proof {
        lemma_first_doc(docs@, id@);
        lemma_unvisited_insert(docs@, v0, id@, i as int);
    }
    let rels: Option<&Vec<Yaml>> = match d.frontmatter.get("relations") {
        Some(v) => v.as_seq(),
        None => None,
    };
    let empty: Vec<Yaml> = Vec::new();
    let list: &Vec<Yaml> = match rels {
        Some(l) => l,
        None => &empty,
    };
    assert(list@ == doc_relations(*d));
    let mut unknown = str_eq(local, "unknown");
    let mut present = false;
    let ghost target_result = freshness_of(docs@, id@, v0);
    assert(target_result == dependencies(docs@, list@, 0, v1, unknown, present, local@));
    let mut k: usize = 0;
    while k < list.len()
        invariant
            k <= list.len(),
            target_result == dependencies(docs@, list@, k as int, visited_set(visiting@), unknown, present, local@),
            target_result == freshness_of(docs@, id@, v0),
            unvisited(docs@, visited_set(visiting@)) < unvisited(docs@, v0),
            v0 == visited_set(old(visiting)@),
        decreases list.len() - k,
    {
        match dependency_target_exec(&list[k]) {
            None => {},
            Some(target) => {
                let ghost before = visited_set(visiting@);
                let r = freshness_exec(docs, target, visiting);
                proof {
                    lemma_freshness_grows(docs@, target@, before);
                    let v2 = visited_set(visiting@);
                    assert(before.union(v2) =~= v2);
                    lemma_unvisited_mono(docs@, before, v2);
                }
                present = true;
                if str_eq(r.as_str(), "stale") {
                    return "stale".to_owned();
                }
                if str_eq(r.as_str(), "unknown") {
                    unknown = true;
                }
            },
        }
        k = k + 1;
    }
    if unknown {
        "unknown".to_owned()
    } else if str_eq(local, "not_applicable") && !present {
        "not_applicable".to_owned()
    } else {
        "fresh".to_owned()
    }
}

/// The effective freshness of the object `id` among the documents.
pub fn effective_freshness(id: &str, documents: &[SemanticDocument]) -> (r: String)
    ensures
        r@ == freshness_of(documents@, id@, Set::<Seq<char>>::empty()).0,
{
    let mut visiting: Vec<String> = Vec::new();
    assert(visited_set(visiting@) =~= Set::<Seq<char>>::empty());
    freshness_exec(documents, id, &mut visiting)
}

/// The relation is a `derived_from`, `supported_by` or `depends_on`
/// relation to the object `target`.
pub open spec fn freshness_relation_to(rel: Yaml, target: Seq<char>) -> bool {
    &&& is_map(Some(rel))
    &&& (str_field(rel, "type"@) == Some("derived_from"@) || str_field(rel, "type"@) == Some("supported_by"@)
        || str_field(rel, "type"@) == Some("depends_on"@))
    &&& field(rel, "target"@) is Some
    &&& str_field(field(rel, "target"@).unwrap(), "object"@) == Some(target)
}

/// The relation's type is none of `derived_from`, `supported_by` and
/// `depends_on` (or it has no string type).
pub open spec fn carries_no_freshness(rel: Yaml) -> bool {
    &&& str_field(rel, "type"@) != Some("derived_from"@)
    &&& str_field(rel, "type"@) != Some("supported_by"@)
    &&& str_field(rel, "type"@) != Some("depends_on"@)
}

proof fn lemma_skip_relations(
    docs: Seq<SemanticDocument>,
    rels: Seq<Yaml>,
    m: int,
    k: int,
    visited: Set<Seq<char>>,
    unknown: bool,
    local: Seq<char>,
)
    requires
        0 <= m <= k < rels.len(),
        forall|q: int| m <= q < k ==> #[trigger] carries_no_freshness(rels[q]),
    ensures
        dependencies(docs, rels, m, visited, unknown, false, local) == dependencies(
            docs,
            rels,
            k,
            visited,
            unknown,
            false,
            local,
        ),
    decreases k - m,
{
    if m < k {
        reveal_strlit("derived_from");
        reveal_strlit("supported_by");
        reveal_strlit("depends_on");
        assert(carries_no_freshness(rels[m]));
        assert("derived_from"@.len() > 0 && "supported_by"@.len() > 0 && "depends_on"@.len() > 0);
        let name = match str_field(rels[m], "type"@) {
            Some(n) => n,
            None => Seq::<char>::empty(),
        };
        assert(!carries_freshness(name));
        assert(dependency_target(rels[m]) is None);
        lemma_skip_relations(docs, rels, m + 1, k, visited, unknown, local);
    }
}

/// An object whose first freshness-carrying relation (`derived_from`,
/// `supported_by` or `depends_on`) points to another object that is stale
/// itself is stale, whatever its own state.
pub proof fn law_stale_dependency_makes_stale(
    docs: Seq<SemanticDocument>,
    id: Seq<char>,
    i: int,
    target: Seq<char>,
    j: int,
    k: int,
)
    requires
        0 <= i < docs.len(),
        str_field(docs[i].frontmatter, "id"@) == Some(id),
        forall|q: int| 0 <= q < i ==> #[trigger] str_field(docs[q].frontmatter, "id"@) != Some(id),
        0 <= j < docs.len(),
        str_field(docs[j].frontmatter, "id"@) == Some(target),
        forall|q: int| 0 <= q < j ==> #[trigger] str_field(docs[q].frontmatter, "id"@) != Some(target),
        target != id,
        field(docs[j].frontmatter, "freshness"@) is Some,
        str_field(field(docs[j].frontmatter, "freshness"@).unwrap(), "state"@) == Some("stale"@),
        items(field(docs[i].frontmatter, "relations"@)) is Some,
        0 <= k < items(field(docs[i].frontmatter, "relations"@))->Some_0.len(),
        freshness_relation_to(items(field(docs[i].frontmatter, "relations"@))->Some_0[k], target),
        forall|q: int|
            0 <= q < k ==> #[trigger] carries_no_freshness(items(field(docs[i].frontmatter, "relations"@))->Some_0[q]),
    ensures
        freshness_of(docs, id, Set::<Seq<char>>::empty()).0 == "stale"@,
{
    lemma_first_doc_least(docs, id, i);
    lemma_first_doc_least(docs, target, j);
    let d = docs[i];
    let local = local_state(d);
    if local != "stale"@ {
        let rels = doc_relations(d);
        let v1 = Set::<Seq<char>>::empty().insert(id);
        lemma_skip_relations(docs, rels, 0, k, v1, local == "unknown"@, local);
        let rel = rels[k];
        let name = str_field(rel, "type"@).unwrap();
        assert(carries_freshness(name));
        assert(dependency_target(rel) == Some(target));
        assert(!v1.contains(target));
        assert(local_state(docs[j]) == "stale"@);
        assert(freshness_of(docs, target, v1).0 == "stale"@);
    }
}

} // verus!

