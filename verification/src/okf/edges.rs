//! Graph-wide checks over validated documents: one active Decision per
//! decision key, relation targets that exist, no duplicate or reciprocal
//! contradicting edges, no exact self-edges, and no cycles in the acyclic
//! relations.

use vstd::prelude::*;

use crate::okf::contracts::has_claim;
use crate::okf::diagnostics::Diagnostic;
use crate::okf::document::SemanticDocument;
use crate::okf::graph::{cyclic, edge_views, has_cycle};
use crate::okf::registries::{relation_views, Registries, RelationRule, RuleView};
use crate::okf::relations::{find_relation_rule, lookup_rule};
use crate::okf::serialized::{json_text_of, relation_selectors, selectors_json};
use crate::okf::yaml::{field, is_map, items, str_field, Yaml};
use crate::text::{pieces, push_str_chars, split_pieces, str_chars, str_eq, string_from_chars};

verus! {

/// The items of an optional sequence value (none for anything else).
pub open spec fn relation_items(v: Option<Yaml>) -> Seq<Yaml> {
    match items(v) {
        Some(l) => l,
        None => Seq::empty(),
    }
}

/// The text under `key`, or the empty text.
pub open spec fn text_or_empty(y: Yaml, key: Seq<char>) -> Seq<char> {
    match str_field(y, key) {
        Some(s) => s,
        None => Seq::empty(),
    }
}

/// Each relation paired with the address it comes from.
pub open spec fn with_source(source: Seq<char>, rels: Seq<Yaml>) -> Seq<(Seq<char>, Yaml)> {
    rels.map_values(|r: Yaml| (source, r))
}

/// The relations of the claims of object `id`, each with its claim address
/// `id#claim`.
pub open spec fn claim_slots(id: Seq<char>, claims: Seq<Yaml>) -> Seq<(Seq<char>, Yaml)>
    decreases claims.len(),
{
    if claims.len() == 0 {
        Seq::empty()
    } else {
        let c = claims.last();
        claim_slots(id, claims.drop_last()) + with_source(
            id + "#"@ + text_or_empty(c, "id"@),
            relation_items(field(c, "relations"@)),
        )
    }
}

/// The relations authored in a document, each with the address it comes
/// from: the object's own relations, then those of each claim.
pub open spec fn doc_slots(d: SemanticDocument) -> Seq<(Seq<char>, Yaml)> {
    let m = d.frontmatter;
    let id = text_or_empty(m, "id"@);
    with_source(id, relation_items(field(m, "relations"@))) + claim_slots(id, relation_items(field(m, "claims"@)))
}

/// The authored relations of all documents, in order.
pub open spec fn all_slots(docs: Seq<SemanticDocument>) -> Seq<(Seq<char>, Yaml)>
    decreases docs.len(),
{
    if docs.len() == 0 {
        Seq::empty()
    } else {
        all_slots(docs.drop_last()) + doc_slots(docs.last())
    }
}

/// Some document has the ID `id` (documents without one count as `""`).
pub open spec fn known_object(docs: Seq<SemanticDocument>, id: Seq<char>) -> bool {
    exists|i: int| 0 <= i < docs.len() && #[trigger] text_or_empty(docs[i].frontmatter, "id"@) == id
}

/// The last document with the ID `id`.
pub open spec fn last_object(docs: Seq<SemanticDocument>, id: Seq<char>) -> SemanticDocument
    decreases docs.len(),
{
    if docs.len() == 0 {
        arbitrary()
    } else if text_or_empty(docs.last().frontmatter, "id"@) == id {
        docs.last()
    } else {
        last_object(docs.drop_last(), id)
    }
}

/// What the edge checks keep from one relation to the next.
pub struct EdgeState {
    pub seen: Seq<Seq<char>>,
    pub contradictions: Seq<Seq<char>>,
    pub cycles: Seq<(Seq<char>, Seq<Seq<char>>)>,
}

/// The index of the first list named `name`.
pub open spec fn first_named(lists: Seq<(Seq<char>, Seq<Seq<char>>)>, name: Seq<char>) -> Option<int>
    decreases lists.len(),
{
    if lists.len() == 0 {
        None
    } else if lists[0].0 == name {
        Some(0)
    } else {
        match first_named(lists.drop_first(), name) {
            Some(i) => Some(i + 1),
            None => None,
        }
    }
}

/// Appends `edge` to the list named `name`, opening that list at the end
/// when there is none yet.
pub open spec fn add_edge(cycles: Seq<(Seq<char>, Seq<Seq<char>>)>, name: Seq<char>, edge: Seq<char>) -> Seq<(Seq<char>, Seq<Seq<char>>)> {
    match first_named(cycles, name) {
        Some(i) => cycles.update(i, (name, cycles[i].1.push(edge))),
        None => cycles.push((name, seq![edge])),
    }
}

pub open spec fn unknown_object_message(name: Seq<char>, target: Seq<char>) -> Seq<char> {
    "relation "@ + name + " targets unknown object "@ + target
}

pub open spec fn unknown_claim_message(name: Seq<char>, target: Seq<char>) -> Seq<char> {
    "relation "@ + name + " targets unknown claim "@ + target
}

pub open spec fn duplicate_message(name: Seq<char>, source: Seq<char>, target: Seq<char>) -> Seq<char> {
    "duplicate "@ + name + " edge from "@ + source + " to "@ + target
}

pub open spec fn reciprocal_message(source: Seq<char>, target: Seq<char>) -> Seq<char> {
    "reciprocal authored contradicts edges are forbidden between "@ + source + " and "@ + target
}

pub open spec fn self_edge_message(source: Seq<char>) -> Seq<char> {
    "exact self-edge is forbidden: "@ + source
}

/// `m` as a one-message list when `b` holds, else nothing.
pub open spec fn when(b: bool, m: Seq<char>) -> Seq<Seq<char>> {
    if b {
        seq![m]
    } else {
        Seq::empty()
    }
}

/// The target address of a relation mapping.
pub open spec fn target_address(tm: Yaml) -> Seq<char> {
    let object = str_field(tm, "object"@).unwrap();
    match str_field(tm, "claim"@) {
        Some(c) => object + "#"@ + c,
        None => object,
    }
}

/// A relation that the edge checks look at: a mapping with a string `type`
/// and a mapping `target` with a string `object`.
pub open spec fn edge_like(rel: Yaml) -> bool {
    &&& is_map(Some(rel))
    &&& str_field(rel, "type"@) is Some
    &&& is_map(field(rel, "target"@))
    &&& str_field(field(rel, "target"@).unwrap(), "object"@) is Some
}

/// The messages about where an edge points.
pub open spec fn target_messages(docs: Seq<SemanticDocument>, name: Seq<char>, target: Seq<char>) -> Seq<Seq<char>> {
    let parts = pieces(target, '#');
    if !known_object(docs, parts[0]) {
        seq![unknown_object_message(name, target)]
    } else if parts.len() >= 2 && !has_claim(items(field(last_object(docs, parts[0]).frontmatter, "claims"@)), parts[1]) {
        seq![unknown_claim_message(name, target)]
    } else {
        Seq::empty()
    }
}

/// One relation's effect: the new state and the messages it raises, all at
/// `okf`. An edge is known by its source, type, target and the JSON text of
/// its selectors.
pub open spec fn edge_step(
    docs: Seq<SemanticDocument>,
    rules: Seq<(Seq<char>, RuleView)>,
    st: EdgeState,
    source: Seq<char>,
    rel: Yaml,
) -> (EdgeState, Seq<Seq<char>>) {
    if !edge_like(rel) {
        (st, Seq::empty())
    } else {
        let name = str_field(rel, "type"@).unwrap();
        let target = target_address(field(rel, "target"@).unwrap());
        let identity = source + "|"@ + name + "|"@ + target + "|"@ + json_text_of(relation_selectors(rel));
        let duplicate = st.seen.contains(identity);
        let seen = if duplicate {
            st.seen
        } else {
            st.seen.push(identity)
        };
        let contradicts = name == "contradicts"@;
        let reciprocal = contradicts && st.contradictions.contains(target + "|"@ + source);
        let contradictions = if contradicts {
            st.contradictions.push(source + "|"@ + target)
        } else {
            st.contradictions
        };
        let acyclic = match lookup_rule(rules, name) {
            Some(rule) => rule.acyclic,
            None => false,
        };
        let cycles = if acyclic {
            add_edge(st.cycles, name, source + ">"@ + target)
        } else {
            st.cycles
        };
        (
            EdgeState { seen, contradictions, cycles },
            target_messages(docs, name, target) + when(duplicate, duplicate_message(name, source, target))
                + when(reciprocal, reciprocal_message(source, target)) + when(
                source == target,
                self_edge_message(source),
            ),
        )
    }
}

/// The state and messages after the first `k` relations.
pub open spec fn edges_upto(
    docs: Seq<SemanticDocument>,
    rules: Seq<(Seq<char>, RuleView)>,
    slots: Seq<(Seq<char>, Yaml)>,
    k: int,
) -> (EdgeState, Seq<Seq<char>>)
    decreases k,
{
    if k <= 0 {
        (EdgeState { seen: Seq::empty(), contradictions: Seq::empty(), cycles: Seq::empty() }, Seq::empty())
    } else {
        let (st, msgs) = edges_upto(docs, rules, slots, k - 1);
        let (st2, more) = edge_step(docs, rules, st, slots[k - 1].0, slots[k - 1].1);
        (st2, msgs + more)
    }
}

/// The cycle messages for the acyclic relations, in the order their first
/// edges appeared.
pub open spec fn cycle_messages(cycles: Seq<(Seq<char>, Seq<Seq<char>>)>) -> Seq<Seq<char>>
    decreases cycles.len(),
{
    if cycles.len() == 0 {
        Seq::empty()
    } else {
        cycle_messages(cycles.drop_last()) + when(
            cyclic(cycles.last().1),
            cycles.last().0 + " cycle detected"@,
        )
    }
}

/// Whether a document is an active Decision with a `decision_key`.
pub open spec fn keyed_decision(d: SemanticDocument) -> bool {
    let m = d.frontmatter;
    &&& text_or_empty(m, "type"@) == "decision"@
    &&& str_field(m, "lifecycle"@) == Some("active"@)
    &&& str_field(m, "decision_key"@) is Some
}

/// Adds `id` to the group of `key`, opening the group at the end when it
/// is new.
pub open spec fn add_to_group(groups: Seq<(Seq<char>, Seq<Seq<char>>)>, key: Seq<char>, id: Seq<char>) -> Seq<(Seq<char>, Seq<Seq<char>>)> {
    add_edge(groups, key, id)
}

/// The active Decisions of the first `k` documents, grouped by decision key
/// in the order the keys first appear.
pub open spec fn decision_groups(docs: Seq<SemanticDocument>, k: int) -> Seq<(Seq<char>, Seq<Seq<char>>)>
    decreases k,
{
    if k <= 0 {
        Seq::empty()
    } else {
        let groups = decision_groups(docs, k - 1);
        let d = docs[k - 1];
        if keyed_decision(d) {
            add_to_group(groups, str_field(d.frontmatter, "decision_key"@).unwrap(), text_or_empty(d.frontmatter, "id"@))
        } else {
            groups
        }
    }
}

/// The IDs separated by `, `.
pub open spec fn join_ids(ids: Seq<Seq<char>>) -> Seq<char>
    decreases ids.len(),
{
    if ids.len() == 0 {
        Seq::empty()
    } else if ids.len() == 1 {
        ids[0]
    } else {
        join_ids(ids.drop_last()) + ", "@ + ids.last()
    }
}

/// The messages about decision keys with more than one active Decision.
pub open spec fn decision_messages(groups: Seq<(Seq<char>, Seq<Seq<char>>)>) -> Seq<Seq<char>>
    decreases groups.len(),
{
    if groups.len() == 0 {
        Seq::empty()
    } else {
        decision_messages(groups.drop_last()) + when(
            groups.last().1.len() > 1,
            "at most one active Decision is allowed for decision_key "@ + groups.last().0 + ": "@ + join_ids(groups.last().1),
        )
    }
}

/// The graph diagnostics as `(path, message)` pairs: decision-key
/// conflicts at `okf/decisions`, then the edge and cycle messages at `okf`.
pub open spec fn graph_report(
    docs: Seq<SemanticDocument>,
    rules: Seq<(Seq<char>, RuleView)>,
) -> Seq<(Seq<char>, Seq<char>)> {
    let slots = all_slots(docs);
    let (st, msgs) = edges_upto(docs, rules, slots, slots.len() as int);
    decision_messages(decision_groups(docs, docs.len() as int)).map_values(|m: Seq<char>| ("okf/decisions"@, m))
        + (msgs + cycle_messages(st.cycles)).map_values(|m: Seq<char>| ("okf"@, m))
}

/// The views of collected relation slots.
pub open spec fn slot_views<'a>(v: Seq<(String, &'a Yaml)>) -> Seq<(Seq<char>, Yaml)> {
    v.map_values(|e: (String, &'a Yaml)| (e.0@, *e.1))
}

/// The views of a list of strings.
pub open spec fn string_views(v: Seq<String>) -> Seq<Seq<char>> {
    v.map_values(|s: String| s@)
}

/// The views of named lists of strings.
pub open spec fn named_views(v: Seq<(String, Vec<String>)>) -> Seq<(Seq<char>, Seq<Seq<char>>)> {
    v.map_values(|g: (String, Vec<String>)| (g.0@, string_views(g.1@)))
}

fn text_or_empty_exec(y: &Yaml, key: &str) -> (s: String)
    ensures
        s@ == text_or_empty(*y, key@),
{
    match y.get_str(key) {
        Some(t) => t.to_owned(),
        None => String::new(),
    }
}

fn relation_list<'a>(y: &'a Yaml, key: &str) -> (r: Option<&'a Vec<Yaml>>)
    ensures
        relation_items(field(*y, key@)) == match r {
            Some(v) => v@,
            None => Seq::<Yaml>::empty(),
        },
        items(field(*y, key@)) == match r {
            Some(v) => Some(v@),
            None => None,
        },
{
    match y.get(key) {
        Some(v) => v.as_seq(),
        None => None,
    }
}

fn push_slots<'a>(out: &mut Vec<(String, &'a Yaml)>, source: &String, rels: Option<&'a Vec<Yaml>>)
    ensures
        slot_views(final(out)@) == slot_views(old(out)@) + with_source(
            source@,
            match rels {
                Some(v) => v@,
                None => Seq::<Yaml>::empty(),
            },
        ),
{
    let ghost start = slot_views(out@);
    match rels {
        None => {
            assert(with_source(source@, Seq::<Yaml>::empty()) =~= Seq::<(Seq<char>, Yaml)>::empty());
            assert(slot_views(out@) =~= start + Seq::<(Seq<char>, Yaml)>::empty());
        },
        Some(v) => {
            let mut i: usize = 0;
            while i < v.len()
                invariant
                    i <= v.len(),
                    slot_views(out@) == start + with_source(source@, v@.take(i as int)),
                decreases v.len() - i,
            {
                let ghost before = slot_views(out@);
                let src = source.clone();
                let item = &v[i];
                assert(*item == v@[i as int]);
                out.push((src, item));
                assert(slot_views(out@) =~= before.push((source@, v@[i as int])));
                assert(with_source(source@, v@.take(i + 1)) =~= with_source(source@, v@.take(i as int)).push(
                    (source@, v@[i as int]),
                ));
                i = i + 1;
            }
            assert(v@.take(v.len() as int) =~= v@);
        },
    }
}

/// The authored relations of one document, in order, each with the
/// address it comes from: its own, then those of each claim.
pub fn document_slots<'a>(d: &'a SemanticDocument) -> (v: Vec<(String, &'a Yaml)>)
    ensures
        slot_views(v@) == doc_slots(*d),
{
    let mut out: Vec<(String, &'a Yaml)> = Vec::new();
    let m = &d.frontmatter;
    let id = text_or_empty_exec(m, "id");
    assert(slot_views(out@) =~= Seq::<(Seq<char>, Yaml)>::empty());
    push_slots(&mut out, &id, relation_list(m, "relations"));
    let ghost before_claims = slot_views(out@);
    let claims = relation_list(m, "claims");
    let ghost cl = relation_items(field(*m, "claims"@));
    assert(claim_slots(id@, cl.take(0)) == Seq::<(Seq<char>, Yaml)>::empty());
    assert(before_claims =~= before_claims + claim_slots(id@, cl.take(0)));
    match claims {
        None => {},
        Some(list) => {
            let mut j: usize = 0;
            while j < list.len()
                invariant
                    cl == list@,
                    j <= list.len(),
                    slot_views(out@) == before_claims + claim_slots(id@, cl.take(j as int)),
                decreases list.len() - j,
            {
                let c = &list[j];
                let cid = text_or_empty_exec(c, "id");
                let source = crate::text::concat3(id.as_str(), "#", cid.as_str());
                push_slots(&mut out, &source, relation_list(c, "relations"));
                proof {
                    assert(cl.take(j + 1).drop_last() =~= cl.take(j as int));
                    assert(cl.take(j + 1).last() == *c);
                }
                j = j + 1;
            }
            assert(cl.take(list.len() as int) =~= cl);
        },
    }
    assert(cl.take(cl.len() as int) =~= cl);
    out
}

/// The authored relations of all documents, in order, each with the
/// address it comes from.
pub fn relation_slots<'a>(documents: &'a [SemanticDocument]) -> (v: Vec<(String, &'a Yaml)>)
    ensures
        slot_views(v@) == all_slots(documents@),
{
    let mut out: Vec<(String, &'a Yaml)> = Vec::new();
    let mut i: usize = 0;
    assert(all_slots(documents@.take(0)) == Seq::<(Seq<char>, Yaml)>::empty());
    while i < documents.len()
        invariant
            i <= documents.len(),
            slot_views(out@) == all_slots(documents@.take(i as int)),
        decreases documents.len() - i,
    {
        let d = &documents[i];
        let ghost before = slot_views(out@);
        let mut more = document_slots(d);
        let ghost added = more@;
        out.append(&mut more);
        assert(slot_views(out@) =~= before + slot_views(added));
        proof {
            assert(documents@.take(i + 1).drop_last() =~= documents@.take(i as int));
            assert(documents@.take(i + 1).last() == *d);
        }
        i = i + 1;
    }
    assert(documents@.take(documents.len() as int) =~= documents@);
    out
}

fn known_object_exec(docs: &[SemanticDocument], id: &str) -> (b: bool)
    ensures
        b == known_object(docs@, id@),
{
    let mut i: usize = 0;
    while i < docs.len()
        invariant
            i <= docs.len(),
            forall|j: int| 0 <= j < i ==> #[trigger] text_or_empty(docs@[j].frontmatter, "id"@) != id@,
        decreases docs.len() - i,
    {
        let t = text_or_empty_exec(&docs[i].frontmatter, "id");
        if str_eq(t.as_str(), id) {
            return true;
        }
        i = i + 1;
    }
    false
}

fn last_object_exec<'a>(docs: &'a [SemanticDocument], id: &str) -> (d: &'a SemanticDocument)
    requires
        known_object(docs@, id@),
    ensures
        *d == last_object(docs@, id@),
{
    let mut i: usize = docs.len();
    assert(docs@.take(docs.len() as int) =~= docs@);
    while i > 0
        invariant
            i <= docs.len(),
            last_object(docs@, id@) == last_object(docs@.take(i as int), id@),
            forall|j: int| i <= j < docs.len() ==> #[trigger] text_or_empty(docs@[j].frontmatter, "id"@) != id@,
        decreases i,
    {
        let ghost pre = docs@.take(i as int);
        assert(pre.last() == docs@[i - 1]);
        assert(pre.drop_last() =~= docs@.take(i - 1));
        let t = text_or_empty_exec(&docs[i - 1].frontmatter, "id");
        if str_eq(t.as_str(), id) {
            return &docs[i - 1];
        }
        i = i - 1;
    }
    proof {
        let k = choose|k: int| 0 <= k < docs.len() && #[trigger] text_or_empty(docs@[k].frontmatter, "id"@) == id@;
        assert(text_or_empty(docs@[k].frontmatter, "id"@) == id@);
    }
    &docs[0]
}

fn claim_exists(claims: Option<&Vec<Yaml>>, id: &str) -> (b: bool)
    ensures
        b == has_claim(match claims { Some(v) => Some(v@), None => None }, id@),
{
    let list = match claims {
        Some(l) => l,
        None => return false,
    };
    let mut i: usize = 0;
    while i < list.len()
        invariant
            (match claims { Some(v) => Some(v@), None => None }) == Some(list@),
            i <= list.len(),
            forall|j: int| 0 <= j < i ==> #[trigger] str_field(list@[j], "id"@) != Some(id@),
        decreases list.len() - i,
    {
        let hit = match list[i].get_str("id") {
            Some(s) => str_eq(s, id),
            None => false,
        };
        if hit {
            assert(str_field(list@[i as int], "id"@) == Some(id@));
            return true;
        }
        i = i + 1;
    }
    false
}

fn contains_text(v: &Vec<String>, s: &str) -> (b: bool)
    ensures
        b == string_views(v@).contains(s@),
{
    let mut i: usize = 0;
    while i < v.len()
        invariant
            i <= v.len(),
            forall|j: int| 0 <= j < i ==> string_views(v@)[j] != s@,
        decreases v.len() - i,
    {
        if str_eq(v[i].as_str(), s) {
            assert(string_views(v@)[i as int] == s@);
            return true;
        }
        i = i + 1;
    }
    false
}

proof fn lemma_first_named(lists: Seq<(Seq<char>, Seq<Seq<char>>)>, name: Seq<char>, i: int)
    requires
        0 <= i <= lists.len(),
        forall|j: int| 0 <= j < i ==> #[trigger] lists[j].0 != name,
    ensures
        i < lists.len() && lists[i].0 == name ==> first_named(lists, name) == Some(i),
        i == lists.len() ==> first_named(lists, name) is None,
    decreases i,
{
    if i > 0 {
        let rest = lists.drop_first();
        assert forall|j: int| 0 <= j < i - 1 implies #[trigger] rest[j].0 != name by {
            assert(rest[j] == lists[j + 1]);
        }
        lemma_first_named(rest, name, i - 1);
    }
}

fn add_named(lists: &mut Vec<(String, Vec<String>)>, name: &str, item: String)
    ensures
        named_views(final(lists)@) == add_edge(named_views(old(lists)@), name@, item@),
{
    let ghost nv = named_views(lists@);
    let mut i: usize = 0;
    while i < lists.len()
        invariant
            nv == named_views(lists@),
            nv == named_views(old(lists)@),
            i <= lists.len(),
            forall|j: int| 0 <= j < i ==> #[trigger] nv[j].0 != name@,
        decreases lists.len() - i,
    {
        assert(nv[i as int].0 == lists@[i as int].0@);
        if str_eq(lists[i].0.as_str(), name) {
            proof { lemma_first_named(nv, name@, i as int); }
            let mut entry = lists.remove(i);
            let ghost old_items = string_views(entry.1@);
            entry.1.push(item);
            assert(string_views(entry.1@) =~= old_items.push(item@));
            lists.insert(i, entry);
            assert(named_views(lists@) =~= nv.update(i as int, (name@, nv[i as int].1.push(item@))));
            return;
        }
        i = i + 1;
    }
    proof { lemma_first_named(nv, name@, i as int); }
    let mut fresh: Vec<String> = Vec::new();
    fresh.push(item);
    assert(string_views(fresh@) =~= seq![item@]);
    lists.push((name.to_owned(), fresh));
    assert(named_views(lists@) =~= nv.push((name@, seq![item@])));
}

/// The edge-check state held in vectors.
pub open spec fn state_of(seen: Seq<String>, contradictions: Seq<String>, cycles: Seq<(String, Vec<String>)>) -> EdgeState {
    EdgeState {
        seen: string_views(seen),
        contradictions: string_views(contradictions),
        cycles: named_views(cycles),
    }
}

fn text_of(parts: &[&str]) -> (s: String)
    requires
        parts.len() <= 6,
    ensures
        s@ == (if parts.len() == 0 {
            Seq::<char>::empty()
        } else if parts.len() == 1 {
            parts[0]@
        } else if parts.len() == 2 {
            parts[0]@ + parts[1]@
        } else if parts.len() == 3 {
            parts[0]@ + parts[1]@ + parts[2]@
        } else if parts.len() == 4 {
            parts[0]@ + parts[1]@ + parts[2]@ + parts[3]@
        } else if parts.len() == 5 {
            parts[0]@ + parts[1]@ + parts[2]@ + parts[3]@ + parts[4]@
        } else {
            parts[0]@ + parts[1]@ + parts[2]@ + parts[3]@ + parts[4]@ + parts[5]@
        }),
{
    let mut v: Vec<char> = Vec::new();
    let mut i: usize = 0;
    while i < parts.len()
        invariant
            parts.len() <= 6,
            i <= parts.len(),
            i == 0 ==> v@ == Seq::<char>::empty(),
            i == 1 ==> v@ == parts[0]@,
            i == 2 ==> v@ == parts[0]@ + parts[1]@,
            i == 3 ==> v@ == parts[0]@ + parts[1]@ + parts[2]@,
            i == 4 ==> v@ == parts[0]@ + parts[1]@ + parts[2]@ + parts[3]@,
            i == 5 ==> v@ == parts[0]@ + parts[1]@ + parts[2]@ + parts[3]@ + parts[4]@,
            i == 6 ==> v@ == parts[0]@ + parts[1]@ + parts[2]@ + parts[3]@ + parts[4]@ + parts[5]@,
        decreases parts.len() - i,
    {
        push_str_chars(&mut v, parts[i]);
        i = i + 1;
    }
    string_from_chars(&v)
}

fn target_messages_exec(docs: &[SemanticDocument], name: &str, target: &str) -> (m: Vec<String>)
    ensures
        string_views(m@) == target_messages(docs@, name@, target@),
{
    let cs = str_chars(target);
    let parts = split_pieces(cs.as_slice(), '#');
    proof { crate::text::lemma_pieces_nonempty(target@, '#'); }
    let ghost pv = parts@.map_values(|v: Vec<char>| v@);
    assert(pv[0] == parts@[0]@);
    let head = string_from_chars(&parts[0]);
    let mut out: Vec<String> = Vec::new();
    if !known_object_exec(docs, head.as_str()) {
        out.push(text_of(&["relation ", name, " targets unknown object ", target]));
        assert(string_views(out@) =~= seq![unknown_object_message(name@, target@)]);
        return out;
    }
    if parts.len() >= 2 {
        assert(pv[1] == parts@[1]@);
        let claim = string_from_chars(&parts[1]);
        let d = last_object_exec(docs, head.as_str());
        let claims = relation_list(&d.frontmatter, "claims");
        proof {
            assert(items(field(d.frontmatter, "claims"@)) == match claims {
                Some(v) => Some(v@),
                None => None,
            });
        }
        if !claim_exists(claims, claim.as_str()) {
            out.push(text_of(&["relation ", name, " targets unknown claim ", target]));
            assert(string_views(out@) =~= seq![unknown_claim_message(name@, target@)]);
            return out;
        }
    }
    assert(string_views(out@) =~= Seq::<Seq<char>>::empty());
    out
}

fn edge_step_exec(
    docs: &[SemanticDocument],
    rules: &Vec<(String, RelationRule)>,
    seen: &mut Vec<String>,
    contradictions: &mut Vec<String>,
    cycles: &mut Vec<(String, Vec<String>)>,
    source: &str,
    rel: &Yaml,
) -> (msgs: Vec<String>)
    ensures
        (state_of(final(seen)@, final(contradictions)@, final(cycles)@), string_views(msgs@)) == edge_step(
            docs@,
            relation_views(rules@),
            state_of(old(seen)@, old(contradictions)@, old(cycles)@),
            source@,
            *rel,
        ),
{
    let mut msgs: Vec<String> = Vec::new();
    if !rel.is_mapping() {
        return msgs;
    }
    let name = match rel.get_str("type") {
        Some(n) => n,
        None => return msgs,
    };
    let tm = match rel.get("target") {
        Some(t) => {
            if !t.is_mapping() {
                return msgs;
            }
            t
        },
        None => return msgs,
    };
    let object = match tm.get_str("object") {
        Some(o) => o,
        None => return msgs,
    };
    let target_text = match tm.get_str("claim") {
        Some(c) => crate::text::concat3(object, "#", c),
        None => object.to_owned(),
    };
    let target = target_text.as_str();
    assert(target@ == target_address(field(*rel, "target"@).unwrap()));
    let ghost st = state_of(seen@, contradictions@, cycles@);
    msgs = target_messages_exec(docs, name, target);
    let ghost m1 = string_views(msgs@);
    let identity = text_of(&[source, "|", name, "|", target, "|"]);
    let selectors = selectors_json(rel);
    let identity = crate::text::concat2(identity.as_str(), selectors.as_str());
    let duplicate = contains_text(seen, identity.as_str());
    if duplicate {
        msgs.push(text_of(&["duplicate ", name, " edge from ", source, " to ", target]));
    } else {
        seen.push(identity);
        assert(string_views(seen@) =~= st.seen.push(source@ + "|"@ + name@ + "|"@ + target@ + "|"@ + selectors@));
    }
    let ghost m2 = string_views(msgs@);
    assert(m2 =~= m1 + when(duplicate, duplicate_message(name@, source@, target@)));
    let contradicts = str_eq(name, "contradicts");
    let mut reciprocal = false;
    if contradicts {
        let reverse = text_of(&[target, "|", source]);
        reciprocal = contains_text(contradictions, reverse.as_str());
        if reciprocal {
            msgs.push(text_of(&["reciprocal authored contradicts edges are forbidden between ", source, " and ", target]));
        }
        let pair = text_of(&[source, "|", target]);
        contradictions.push(pair);
        assert(string_views(contradictions@) =~= st.contradictions.push(source@ + "|"@ + target@));
    }
    let ghost m3 = string_views(msgs@);
    assert(m3 =~= m2 + when(reciprocal, reciprocal_message(source@, target@)));
    let self_edge = str_eq(source, target);
    if self_edge {
        msgs.push(text_of(&["exact self-edge is forbidden: ", source]));
    }
    assert(string_views(msgs@) =~= m3 + when(self_edge, self_edge_message(source@)));
    let acyclic = match find_relation_rule(rules, name) {
        Some(rule) => rule.acyclic,
        None => false,
    };
    if acyclic {
        let edge = text_of(&[source, ">", target]);
        add_named(cycles, name, edge);
    }
    msgs
}

/// Checks the graph of validated documents: at most one active Decision
/// per decision key, targets that exist, no duplicate or reciprocal
/// contradicting edges, no exact self-edges, and no cycles in acyclic
/// relations. Two edges are duplicates when they agree on source, type,
/// target and the JSON text of their selectors.
pub fn validate_graph(documents: &[SemanticDocument], registries: &Registries) -> (ds: Vec<Diagnostic>)
    ensures
        ds@.map_values(|d: Diagnostic| (d.path@, d.message@)) == graph_report(
            documents@,
            relation_views(registries.relations@),
        ),
{
    let ghost rules = relation_views(registries.relations@);
    let mut groups: Vec<(String, Vec<String>)> = Vec::new();
    let mut k: usize = 0;
    while k < documents.len()
        invariant
            k <= documents.len(),
            named_views(groups@) == decision_groups(documents@, k as int),
        decreases documents.len() - k,
    {
        let m = &documents[k].frontmatter;
        let t = text_or_empty_exec(m, "type");
        let active = match m.get_str("lifecycle") {
            Some(l) => str_eq(l, "active"),
            None => false,
        };
        if str_eq(t.as_str(), "decision") && active {
            if let Some(key) = m.get_str("decision_key") {
                let id = text_or_empty_exec(m, "id");
                add_named(&mut groups, key, id);
            }
        }
        k = k + 1;
    }
    let ghost groups_view = named_views(groups@);
    let mut ds: Vec<Diagnostic> = Vec::new();
    let mut g: usize = 0;
    while g < groups.len()
        invariant
            groups_view == named_views(groups@),
            g <= groups.len(),
            ds@.map_values(|d: Diagnostic| (d.path@, d.message@)) == decision_messages(groups_view.take(g as int)).map_values(
                |m: Seq<char>| ("okf/decisions"@, m),
            ),
        decreases groups.len() - g,
    {
        let ghost before = ds@.map_values(|d: Diagnostic| (d.path@, d.message@));
        let key = groups[g].0.as_str();
        let ids = &groups[g].1;
        assert(groups_view[g as int] == (key@, string_views(ids@)));
        assert(groups_view.take(g + 1).drop_last() =~= groups_view.take(g as int));
        if ids.len() > 1 {
            let mut joined: Vec<char> = Vec::new();
            push_str_chars(&mut joined, ids[0].as_str());
            let mut j: usize = 1;
            assert(string_views(ids@).take(1).drop_last() =~= Seq::<Seq<char>>::empty());
            while j < ids.len()
                invariant
                    1 <= j <= ids.len(),
                    joined@ == join_ids(string_views(ids@).take(j as int)),
                decreases ids.len() - j,
            {
                push_str_chars(&mut joined, ", ");
                push_str_chars(&mut joined, ids[j].as_str());
                assert(string_views(ids@).take(j + 1).drop_last() =~= string_views(ids@).take(j as int));
                j = j + 1;
            }
            assert(string_views(ids@).take(ids.len() as int) =~= string_views(ids@));
            let list = string_from_chars(&joined);
            let message = text_of(&["at most one active Decision is allowed for decision_key ", key, ": ", list.as_str()]);
            assert(message@ == "at most one active Decision is allowed for decision_key "@ + key@ + ": "@ + join_ids(string_views(ids@)));
            ds.push(Diagnostic { path: "okf/decisions".to_owned(), message });
        }
        proof {
            let gv = groups_view.take(g + 1);
            assert(gv.last() == groups_view[g as int]);
            let added = when(
                gv.last().1.len() > 1,
                "at most one active Decision is allowed for decision_key "@ + gv.last().0 + ": "@ + join_ids(gv.last().1),
            );
            assert(decision_messages(gv) == decision_messages(groups_view.take(g as int)) + added);
            assert((decision_messages(groups_view.take(g as int)) + added).map_values(|m: Seq<char>| ("okf/decisions"@, m))
                =~= before + added.map_values(|m: Seq<char>| ("okf/decisions"@, m)));
            assert(ds@.map_values(|d: Diagnostic| (d.path@, d.message@)) =~= before + added.map_values(|m: Seq<char>| ("okf/decisions"@, m)));
        }
        g = g + 1;
    }
    assert(groups_view.take(groups.len() as int) =~= groups_view);
    let ghost dec_part = ds@.map_values(|d: Diagnostic| (d.path@, d.message@));
    let slots = relation_slots(documents);
    let ghost sv = slot_views(slots@);
    let mut seen: Vec<String> = Vec::new();
    let mut contradictions: Vec<String> = Vec::new();
    let mut cycles: Vec<(String, Vec<String>)> = Vec::new();
    let mut s: usize = 0;
    assert(string_views(seen@) =~= Seq::<Seq<char>>::empty());
    assert(string_views(contradictions@) =~= Seq::<Seq<char>>::empty());
    assert(named_views(cycles@) =~= Seq::<(Seq<char>, Seq<Seq<char>>)>::empty());
    assert(state_of(seen@, contradictions@, cycles@) == edges_upto(documents@, rules, sv, 0).0);
    assert(ds@.map_values(|d: Diagnostic| (d.path@, d.message@)) =~= dec_part + Seq::<Seq<char>>::empty().map_values(
        |m: Seq<char>| ("okf"@, m),
    ));
    while s < slots.len()
        invariant
            sv == slot_views(slots@),
            sv == all_slots(documents@),
            rules == relation_views(registries.relations@),
            s <= slots.len(),
            state_of(seen@, contradictions@, cycles@) == edges_upto(documents@, rules, sv, s as int).0,
            ds@.map_values(|d: Diagnostic| (d.path@, d.message@)) == dec_part + edges_upto(documents@, rules, sv, s as int).1.map_values(
                |m: Seq<char>| ("okf"@, m),
            ),
        decreases slots.len() - s,
    {
        let source = slots[s].0.as_str();
        let rel = slots[s].1;
        assert(sv[s as int] == (source@, *rel));
        let msgs = edge_step_exec(
            documents,
            &registries.relations,
            &mut seen,
            &mut contradictions,
            &mut cycles,
            source,
            rel,
        );
        let ghost before = ds@.map_values(|d: Diagnostic| (d.path@, d.message@));
        let mut q: usize = 0;
        while q < msgs.len()
            invariant
                q <= msgs.len(),
                ds@.map_values(|d: Diagnostic| (d.path@, d.message@)) == before + string_views(msgs@).take(q as int).map_values(
                    |m: Seq<char>| ("okf"@, m),
                ),
            decreases msgs.len() - q,
        {
            let ghost prev = ds@.map_values(|d: Diagnostic| (d.path@, d.message@));
            ds.push(Diagnostic { path: "okf".to_owned(), message: msgs[q].clone() });
            assert(ds@.map_values(|d: Diagnostic| (d.path@, d.message@)) =~= prev.push(("okf"@, msgs@[q as int]@)));
            assert(string_views(msgs@).take(q + 1).map_values(|m: Seq<char>| ("okf"@, m)) =~= string_views(msgs@).take(
                q as int,
            ).map_values(|m: Seq<char>| ("okf"@, m)).push(("okf"@, msgs@[q as int]@)));
            q = q + 1;
        }
        assert(string_views(msgs@).take(msgs.len() as int) =~= string_views(msgs@));
        let ghost prior = edges_upto(documents@, rules, sv, s as int);
        assert((prior.1 + string_views(msgs@)).map_values(|m: Seq<char>| ("okf"@, m)) =~= prior.1.map_values(
            |m: Seq<char>| ("okf"@, m),
        ) + string_views(msgs@).map_values(|m: Seq<char>| ("okf"@, m)));
        s = s + 1;
    }
    let ghost fin = edges_upto(documents@, rules, sv, slots.len() as int);
    let ghost edge_part = ds@.map_values(|d: Diagnostic| (d.path@, d.message@));
    let ghost cv = named_views(cycles@);
    let mut c: usize = 0;
    while c < cycles.len()
        invariant
            cv == named_views(cycles@),
            c <= cycles.len(),
            ds@.map_values(|d: Diagnostic| (d.path@, d.message@)) == edge_part + cycle_messages(cv.take(c as int)).map_values(
                |m: Seq<char>| ("okf"@, m),
            ),
        decreases cycles.len() - c,
    {
        let name = cycles[c].0.as_str();
        let edges = &cycles[c].1;
        assert(cv[c as int] == (name@, string_views(edges@)));
        assert(cv.take(c + 1).drop_last() =~= cv.take(c as int));
        assert(edge_views(edges@) =~= string_views(edges@));
        let ghost before = ds@.map_values(|d: Diagnostic| (d.path@, d.message@));
        if has_cycle(edges.as_slice()) {
            ds.push(Diagnostic { path: "okf".to_owned(), message: crate::text::concat2(name, " cycle detected") });
        }
        proof {
            let cvt = cv.take(c + 1);
            assert(cvt.last() == cv[c as int]);
            let added = when(cyclic(cvt.last().1), cvt.last().0 + " cycle detected"@);
            assert(cycle_messages(cvt) == cycle_messages(cv.take(c as int)) + added);
            assert((cycle_messages(cv.take(c as int)) + added).map_values(|m: Seq<char>| ("okf"@, m)) =~= cycle_messages(
                cv.take(c as int),
            ).map_values(|m: Seq<char>| ("okf"@, m)) + added.map_values(|m: Seq<char>| ("okf"@, m)));
            assert(ds@.map_values(|d: Diagnostic| (d.path@, d.message@)) =~= before + added.map_values(|m: Seq<char>| ("okf"@, m)));
        }
        c = c + 1;
    }
    assert(cv.take(cycles.len() as int) =~= cv);
    assert(dec_part + (fin.1 + cycle_messages(fin.0.cycles)).map_values(|m: Seq<char>| ("okf"@, m)) =~= dec_part
        + fin.1.map_values(|m: Seq<char>| ("okf"@, m)) + cycle_messages(fin.0.cycles).map_values(|m: Seq<char>| ("okf"@, m)));
    ds
}

} // verus!
