//! The generated views of the knowledge base: the catalog, the relation
//! graph and the review list as JSON texts (compact, with sorted keys), the
//! review list and the index as Markdown, and the drift check over them.

use vstd::prelude::*;

use crate::okf::canonical::{
    canonical, canonical_json, insert_member, joined, json_string, mapping_text, member_insert, members_text,
    members_view, push_json_string, text_result,
};
use crate::okf::diagnostics::Diagnostic;
use crate::okf::document::SemanticDocument;
use crate::okf::edges::{doc_slots, document_slots, edge_like, slot_views, target_address, text_or_empty};
use crate::okf::freshness::effective_freshness;
use crate::okf::registries::{relation_views, text_less, text_less_exec, Registries, RuleView};
use crate::okf::relations::lookup_rule;
use crate::okf::views::{
    effective_of, item_view, keyed_insert_exec, keyed_sort, keyed_views, review_items, review_report,
    ReviewItem,
};
use crate::okf::fields::{starts_with, starts_with_str};
use crate::okf::yaml::{field, is_map, str_field, Yaml};
use crate::text::{concat2, push_str_chars, str_chars, str_eq, string_from_chars};
use vstd::utf8::encode_utf8;

verus! {

/// The canonical JSON text of a value, or `null` when it has none.
pub open spec fn lossless(y: Yaml) -> Seq<char> {
    match canonical(y) {
        Ok(t) => t,
        Err(_) => "null"@,
    }
}

/// The canonical JSON text of an optional value; `null` when absent.
pub open spec fn lossless_or_null(v: Option<Yaml>) -> Seq<char> {
    match v {
        Some(y) => lossless(y),
        None => "null"@,
    }
}

/// A path with `/` for every `\`.
pub open spec fn slashed(p: Seq<char>) -> Seq<char> {
    p.map_values(|c: char| if c == '\\' { '/' } else { c })
}

/// The text of a value that is itself a string (tags not looked through),
/// or the empty text: how a JSON string member reads back.
pub open spec fn plain_text(v: Option<Yaml>) -> Seq<char> {
    match v {
        Some(Yaml::Str(s)) => s@,
        _ => Seq::empty(),
    }
}

fn lossless_text(y: &Yaml) -> (s: String)
    ensures
        s@ == lossless(*y),
{
    match canonical_json(y) {
        Ok(t) => t,
        Err(_) => "null".to_owned(),
    }
}

fn lossless_or_null_text(v: Option<&Yaml>) -> (s: String)
    ensures
        s@ == lossless_or_null(match v {
            Some(y) => Some(*y),
            None => None,
        }),
{
    match v {
        Some(y) => lossless_text(y),
        None => "null".to_owned(),
    }
}

fn slashed_text(p: &str) -> (s: String)
    ensures
        s@ == slashed(p@),
{
    let cs = str_chars(p);
    let mut out: Vec<char> = Vec::new();
    let mut i: usize = 0;
    while i < cs.len()
        invariant
            cs@ == p@,
            i <= cs.len(),
            out@ == slashed(cs@.take(i as int)),
        decreases cs.len() - i,
    {
        let c = cs[i];
        out.push(if c == '\\' { '/' } else { c });
        assert(slashed(cs@.take(i + 1)) =~= slashed(cs@.take(i as int)).push(if c == '\\' { '/' } else { c }));
        i = i + 1;
    }
    assert(cs@.take(cs.len() as int) =~= cs@);
    string_from_chars(&out)
}

fn plain_text_of(v: Option<&Yaml>) -> (s: String)
    ensures
        s@ == plain_text(match v {
            Some(y) => Some(*y),
            None => None,
        }),
{
    match v {
        Some(Yaml::Str(t)) => t.clone(),
        _ => String::new(),
    }
}

fn text_or_empty_exec(y: &Yaml, key: &str) -> (s: String)
    ensures
        s@ == text_or_empty(*y, key@),
{
    match y.get_str(key) {
        Some(t) => t.to_owned(),
        None => String::new(),
    }
}

/// The fields a catalog entry copies before the path, in order.
pub open spec fn first_fields() -> Seq<Seq<char>> {
    seq!["id"@, "type"@, "title"@, "description"@, "lifecycle"@, "semantic_hash"@]
}

/// The fields a catalog entry copies after the path, in order.
pub open spec fn later_fields() -> Seq<Seq<char>> {
    seq![
        "aliases"@,
        "definition_claim"@,
        "behavior_claims"@,
        "conclusion_claims"@,
        "decision_claim"@,
        "decision_key"@,
        "research_question"@,
    ]
}

/// Adds the member `name` when the value is present.
pub open spec fn with_field(ms: Seq<(Seq<char>, Seq<char>)>, name: Seq<char>, v: Option<Yaml>) -> Seq<(Seq<char>, Seq<char>)> {
    match v {
        Some(y) => member_insert(ms, name, lossless(y)),
        None => ms,
    }
}

/// Adds the present fields among `names` of the front matter `m`.
pub open spec fn with_fields(ms: Seq<(Seq<char>, Seq<char>)>, m: Yaml, names: Seq<Seq<char>>) -> Seq<(Seq<char>, Seq<char>)>
    decreases names.len(),
{
    if names.len() == 0 {
        ms
    } else {
        with_fields(with_field(ms, names[0], field(m, names[0])), m, names.drop_first())
    }
}

/// The kind of a Reference's source.
pub open spec fn source_kind(m: Yaml) -> Option<Yaml> {
    match field(m, "source"@) {
        Some(s) => field(s, "kind"@),
        None => None,
    }
}

/// The members of a document's catalog entry, sorted by key.
pub open spec fn catalog_members(docs: Seq<SemanticDocument>, d: SemanticDocument) -> Seq<(Seq<char>, Seq<char>)> {
    let m = d.frontmatter;
    let a = with_fields(Seq::empty(), m, first_fields());
    let b = member_insert(a, "path"@, json_string(slashed(d.path@)));
    let c = with_fields(b, m, later_fields());
    let e = with_field(c, "source_kind"@, source_kind(m));
    member_insert(e, "effective_freshness"@, json_string(effective_of(docs, d)))
}

/// The sort key of document `k` in the catalog: its type and ID as the
/// entry holds them, and its position.
pub open spec fn catalog_key(docs: Seq<SemanticDocument>, k: int) -> (Seq<char>, Seq<char>, int) {
    (plain_text(field(docs[k].frontmatter, "type"@)), plain_text(field(docs[k].frontmatter, "id"@)), k)
}

/// The documents in catalog order: by type, then ID, then position.
pub open spec fn catalog_order(docs: Seq<SemanticDocument>) -> Seq<(Seq<char>, Seq<char>, int)> {
    keyed_sort(Seq::new(docs.len(), |k: int| catalog_key(docs, k)))
}

/// The catalog: `{"objects": [...]}` with one entry per document.
pub open spec fn catalog_text(docs: Seq<SemanticDocument>) -> Seq<char> {
    "{\"objects\":["@ + joined(
        catalog_order(docs).map_values(|e: (Seq<char>, Seq<char>, int)| mapping_text(catalog_members(docs, docs[e.2]))),
    ) + "]}"@
}

fn add_value(members: &mut Vec<(String, String)>, name: &str, v: Option<&Yaml>)
    ensures
        members_view(final(members)@) == with_field(members_view(old(members)@), name@, match v {
            Some(y) => Some(*y),
            None => None,
        }),
{
    match v {
        Some(y) => {
            let t = lossless_text(y);
            insert_member(members, name.to_owned(), t);
        },
        None => {},
    }
}

fn add_field(members: &mut Vec<(String, String)>, m: &Yaml, name: &str)
    ensures
        members_view(final(members)@) == with_field(members_view(old(members)@), name@, field(*m, name@)),
{
    add_value(members, name, m.get(name));
}

fn add_fields(members: &mut Vec<(String, String)>, m: &Yaml, names: &[&str])
    ensures
        members_view(final(members)@) == with_fields(members_view(old(members)@), *m, names@.map_values(|n: &str| n@)),
{
    let ghost nv = names@.map_values(|n: &str| n@);
    let ghost start = members_view(members@);
    let mut i: usize = 0;
    assert(nv.skip(0) =~= nv);
    while i < names.len()
        invariant
            nv == names@.map_values(|n: &str| n@),
            i <= names.len(),
            with_fields(start, *m, nv) == with_fields(members_view(members@), *m, nv.skip(i as int)),
        decreases names.len() - i,
    {
        assert(nv.skip(i as int)[0] == names@[i as int]@);
        assert(nv.skip(i as int).drop_first() =~= nv.skip(i + 1));
        add_field(members, m, names[i]);
        i = i + 1;
    }
    assert(nv.skip(names.len() as int) =~= Seq::<Seq<char>>::empty());
}

fn json_string_text(s: &str) -> (r: String)
    ensures
        r@ == json_string(s@),
{
    let mut out: Vec<char> = Vec::new();
    push_json_string(&mut out, s);
    assert(out@ =~= json_string(s@));
    string_from_chars(&out)
}

fn catalog_entry(documents: &[SemanticDocument], d: &SemanticDocument) -> (s: String)
    ensures
        s@ == mapping_text(catalog_members(documents@, *d)),
{
    let m = &d.frontmatter;
    let mut members: Vec<(String, String)> = Vec::new();
    let first: [&str; 6] = ["id", "type", "title", "description", "lifecycle", "semantic_hash"];
    assert(first@.map_values(|n: &str| n@) =~= first_fields());
    assert(members_view(members@) =~= Seq::<(Seq<char>, Seq<char>)>::empty());
    add_fields(&mut members, m, &first);
    let path = slashed_text(d.path.as_str());
    insert_member(&mut members, "path".to_owned(), json_string_text(path.as_str()));
    let later: [&str; 7] = [
        "aliases",
        "definition_claim",
        "behavior_claims",
        "conclusion_claims",
        "decision_claim",
        "decision_key",
        "research_question",
    ];
    assert(later@.map_values(|n: &str| n@) =~= later_fields());
    add_fields(&mut members, m, &later);
    let kind = match m.get("source") {
        Some(src) => src.get("kind"),
        None => None,
    };
    add_value(&mut members, "source_kind", kind);
    let id = text_or_empty_exec(m, "id");
    let eff = effective_freshness(id.as_str(), documents);
    insert_member(&mut members, "effective_freshness".to_owned(), json_string_text(eff.as_str()));
    members_text(&members)
}

/// Appends `part` to a comma-separated list that already holds `k` parts.
fn push_part(out: &mut Vec<char>, k: usize, part: &str)
    ensures
        final(out)@ == old(out)@ + (if k > 0 {
            seq![',']
        } else {
            Seq::empty()
        }) + part@,
{
    if k > 0 {
        out.push(',');
    }
    push_str_chars(out, part);
}

proof fn lemma_joined_step(parts: Seq<Seq<char>>, k: int)
    requires
        0 <= k < parts.len(),
    ensures
        joined(parts.take(k + 1)) == joined(parts.take(k)) + (if k > 0 {
            seq![',']
        } else {
            Seq::empty()
        }) + parts[k],
{
    assert(parts.take(k + 1).drop_last() =~= parts.take(k));
    if k == 0 {
        assert(joined(parts.take(1)) == parts.take(1)[0]);
        assert(joined(parts.take(0)) =~= Seq::<char>::empty());
        assert(Seq::<char>::empty() + Seq::<char>::empty() + parts[0] =~= parts[0]);
    }
}

/// The catalog of the documents as compact JSON.
pub fn render_catalog(documents: &[SemanticDocument]) -> (s: String)
    ensures
        s@ == catalog_text(documents@),
{
    let ghost keys = Seq::new(documents@.len(), |k: int| catalog_key(documents@, k));
    let mut order: Vec<(String, String, usize)> = Vec::new();
    let mut k: usize = 0;
    while k < documents.len()
        invariant
            k <= documents.len(),
            keys == Seq::new(documents@.len(), |k: int| catalog_key(documents@, k)),
            keyed_views(order@) == keyed_sort(keys.take(k as int)),
            forall|j: int| 0 <= j < order.len() ==> #[trigger] order@[j].2 < k,
        decreases documents.len() - k,
    {
        let m = &documents[k].frontmatter;
        let t = plain_text_of(m.get("type"));
        let id = plain_text_of(m.get("id"));
        let ghost before = keyed_views(order@);
        keyed_insert_exec(&mut order, (t, id, k));
        proof {
            assert(keys.take(k + 1).drop_last() =~= keys.take(k as int));
            assert(keys.take(k + 1).last() == keys[k as int]);
            assert forall|j: int| 0 <= j < order.len() implies #[trigger] order@[j].2 < k + 1 by {
                crate::okf::views::lemma_keyed_insert_members(before, keys[k as int], j);
                assert(keyed_views(order@)[j].2 == order@[j].2 as int);
            }
        }
        k = k + 1;
    }
    assert(keys.take(documents.len() as int) =~= keys);
    let ghost ord = keyed_views(order@);
    let ghost parts = ord.map_values(|e: (Seq<char>, Seq<char>, int)| mapping_text(catalog_members(documents@, documents@[e.2])));
    let mut out: Vec<char> = Vec::new();
    push_str_chars(&mut out, "{\"objects\":[");
    let ghost head = out@;
    let mut q: usize = 0;
    while q < order.len()
        invariant
            ord == keyed_views(order@),
            parts == ord.map_values(|e: (Seq<char>, Seq<char>, int)| mapping_text(catalog_members(documents@, documents@[e.2]))),
            forall|j: int| 0 <= j < order.len() ==> #[trigger] order@[j].2 < documents.len(),
            q <= order.len(),
            out@ == head + joined(parts.take(q as int)),
        decreases order.len() - q,
    {
        let idx = order[q].2;
        assert(ord[q as int].2 == idx as int);
        let entry = catalog_entry(documents, &documents[idx]);
        proof {
            lemma_joined_step(parts, q as int);
        }
        push_part(&mut out, q, entry.as_str());
        q = q + 1;
    }
    assert(parts.take(order.len() as int) =~= parts);
    push_str_chars(&mut out, "]}");
    assert(out@ =~= catalog_text(documents@));
    string_from_chars(&out)
}

/// The relations of the documents, in order, each with the address it comes
/// from and the path of its document.
pub open spec fn path_slots(docs: Seq<SemanticDocument>) -> Seq<(Seq<char>, Yaml, Seq<char>)>
    decreases docs.len(),
{
    if docs.len() == 0 {
        Seq::empty()
    } else {
        path_slots(docs.drop_last()) + with_path(doc_slots(docs.last()), slashed(docs.last().path@))
    }
}

/// Slots with a path attached.
pub open spec fn with_path(slots: Seq<(Seq<char>, Yaml)>, path: Seq<char>) -> Seq<(Seq<char>, Yaml, Seq<char>)> {
    slots.map_values(|s: (Seq<char>, Yaml)| (s.0, s.1, path))
}

/// The name of a relation.
pub open spec fn relation_name(rel: Yaml) -> Seq<char> {
    str_field(rel, "type"@).unwrap()
}

/// The address a relation points to.
pub open spec fn relation_target(rel: Yaml) -> Seq<char> {
    target_address(field(rel, "target"@).unwrap())
}

/// The JSON text of an authored edge.
pub open spec fn authored_text(source: Seq<char>, rel: Yaml, path: Seq<char>) -> Seq<char> {
    "{\"note\":"@ + lossless_or_null(field(rel, "note"@)) + ",\"path\":"@ + json_string(path) + ",\"relation\":"@
        + json_string(relation_name(rel)) + ",\"selectors\":"@ + lossless_or_null(field(rel, "selectors"@))
        + ",\"source\":"@ + json_string(source) + ",\"target\":"@ + json_string(relation_target(rel)) + "}"@
}

/// The JSON text of an edge generated from the inverse of a relation.
pub open spec fn generated_text(source: Seq<char>, name: Seq<char>, target: Seq<char>, inverse: Seq<char>, path: Seq<char>) -> Seq<char> {
    "{\"generated_from\":"@ + json_string(name) + ",\"path\":"@ + json_string(path) + ",\"relation\":"@ + json_string(inverse)
        + ",\"source\":"@ + json_string(target) + ",\"target\":"@ + json_string(source) + "}"@
}

/// Edge `a` sorts before edge `b`: by source, relation, then target.
pub open spec fn edge_less(a: (Seq<char>, Seq<char>, Seq<char>, Seq<char>), b: (Seq<char>, Seq<char>, Seq<char>, Seq<char>)) -> bool {
    text_less(a.0, b.0) || (a.0 == b.0 && (text_less(a.1, b.1) || (a.1 == b.1 && text_less(a.2, b.2))))
}

/// Inserts an edge after every edge that does not sort after it.
pub open spec fn edge_insert(
    s: Seq<(Seq<char>, Seq<char>, Seq<char>, Seq<char>)>,
    e: (Seq<char>, Seq<char>, Seq<char>, Seq<char>),
) -> Seq<(Seq<char>, Seq<char>, Seq<char>, Seq<char>)>
    decreases s.len(),
{
    if s.len() == 0 {
        seq![e]
    } else if edge_less(e, s[0]) {
        seq![e] + s
    } else {
        seq![s[0]] + edge_insert(s.drop_first(), e)
    }
}

/// The authored edges of the first `k` slots, sorted: `(source, relation,
/// target, JSON text)`.
pub open spec fn authored_edges(slots: Seq<(Seq<char>, Yaml, Seq<char>)>, k: int) -> Seq<(Seq<char>, Seq<char>, Seq<char>, Seq<char>)>
    decreases k,
{
    if k <= 0 || k > slots.len() {
        Seq::empty()
    } else {
        let prev = authored_edges(slots, k - 1);
        let s = slots[k - 1];
        if edge_like(s.1) {
            edge_insert(prev, (s.0, relation_name(s.1), relation_target(s.1), authored_text(s.0, s.1, s.2)))
        } else {
            prev
        }
    }
}

/// The edges generated from the inverses of the registered relations among
/// the first `k` slots, sorted.
pub open spec fn generated_edges(
    slots: Seq<(Seq<char>, Yaml, Seq<char>)>,
    rules: Seq<(Seq<char>, RuleView)>,
    k: int,
) -> Seq<(Seq<char>, Seq<char>, Seq<char>, Seq<char>)>
    decreases k,
{
    if k <= 0 || k > slots.len() {
        Seq::empty()
    } else {
        let prev = generated_edges(slots, rules, k - 1);
        let s = slots[k - 1];
        if edge_like(s.1) {
            match lookup_rule(rules, relation_name(s.1)) {
                Some(rule) => edge_insert(
                    prev,
                    (
                        relation_target(s.1),
                        rule.inverse,
                        s.0,
                        generated_text(s.0, relation_name(s.1), relation_target(s.1), rule.inverse, s.2),
                    ),
                ),
                None => prev,
            }
        } else {
            prev
        }
    }
}

/// The texts of edges, comma separated.
pub open spec fn edge_texts(edges: Seq<(Seq<char>, Seq<char>, Seq<char>, Seq<char>)>) -> Seq<char> {
    joined(edges.map_values(|e: (Seq<char>, Seq<char>, Seq<char>, Seq<char>)| e.3))
}

/// The relation graph: the authored edges and the edges generated from
/// the inverses of registered relations, each list sorted.
pub open spec fn graph_text(docs: Seq<SemanticDocument>, rules: Seq<(Seq<char>, RuleView)>) -> Seq<char> {
    let slots = path_slots(docs);
    "{\"authored\":["@ + edge_texts(authored_edges(slots, slots.len() as int)) + "],\"generated\":["@ + edge_texts(
        generated_edges(slots, rules, slots.len() as int),
    ) + "]}"@
}

/// The views of edges held as strings.
pub open spec fn edge_views(v: Seq<(String, String, String, String)>) -> Seq<(Seq<char>, Seq<char>, Seq<char>, Seq<char>)> {
    v.map_values(|e: (String, String, String, String)| (e.0@, e.1@, e.2@, e.3@))
}

proof fn lemma_edge_insert(
    s: Seq<(Seq<char>, Seq<char>, Seq<char>, Seq<char>)>,
    e: (Seq<char>, Seq<char>, Seq<char>, Seq<char>),
    p: int,
)
    requires
        0 <= p <= s.len(),
        forall|j: int| 0 <= j < p ==> !edge_less(e, #[trigger] s[j]),
        p < s.len() ==> edge_less(e, s[p]),
    ensures
        edge_insert(s, e) == s.take(p) + seq![e] + s.skip(p),
    decreases p,
{
    if p == 0 {
        if s.len() == 0 {
            assert(s.take(0) + seq![e] + s.skip(0) =~= seq![e]);
        } else {
            assert(s.take(0) + seq![e] + s.skip(0) =~= seq![e] + s);
        }
    } else {
        let rest = s.drop_first();
        assert(!edge_less(e, s[0]));
        assert forall|j: int| 0 <= j < p - 1 implies !edge_less(e, #[trigger] rest[j]) by {
            assert(rest[j] == s[j + 1]);
        }
        if p - 1 < rest.len() {
            assert(rest[p - 1] == s[p]);
        }
        lemma_edge_insert(rest, e, p - 1);
        assert(seq![s[0]] + (rest.take(p - 1) + seq![e] + rest.skip(p - 1)) =~= s.take(p) + seq![e] + s.skip(p));
    }
}

fn edge_less_exec(a: &(String, String, String, String), b: &(String, String, String, String)) -> (r: bool)
    ensures
        r == edge_less((a.0@, a.1@, a.2@, a.3@), (b.0@, b.1@, b.2@, b.3@)),
{
    text_less_exec(a.0.as_str(), b.0.as_str()) || (str_eq(a.0.as_str(), b.0.as_str()) && (text_less_exec(
        a.1.as_str(),
        b.1.as_str(),
    ) || (str_eq(a.1.as_str(), b.1.as_str()) && text_less_exec(a.2.as_str(), b.2.as_str()))))
}

fn insert_edge(v: &mut Vec<(String, String, String, String)>, e: (String, String, String, String))
    ensures
        edge_views(final(v)@) == edge_insert(edge_views(old(v)@), (e.0@, e.1@, e.2@, e.3@)),
{
    let ghost s = edge_views(v@);
    let ghost ev = (e.0@, e.1@, e.2@, e.3@);
    let mut p: usize = 0;
    while p < v.len()
        invariant
            s == edge_views(v@),
            s == edge_views(old(v)@),
            ev == (e.0@, e.1@, e.2@, e.3@),
            p <= v.len(),
            forall|j: int| 0 <= j < p ==> !edge_less(ev, #[trigger] s[j]),
        decreases v.len() - p,
    {
        assert(s[p as int] == (v@[p as int].0@, v@[p as int].1@, v@[p as int].2@, v@[p as int].3@));
        if edge_less_exec(&e, &v[p]) {
            proof {
                lemma_edge_insert(s, ev, p as int);
            }
            v.insert(p, e);
            assert(edge_views(v@) =~= s.take(p as int) + seq![ev] + s.skip(p as int));
            return;
        }
        p = p + 1;
    }
    proof {
        lemma_edge_insert(s, ev, p as int);
    }
    v.insert(p, e);
    assert(edge_views(v@) =~= s.take(p as int) + seq![ev] + s.skip(p as int));
}

fn relation_name_exec(rel: &Yaml) -> (s: String)
    requires
        edge_like(*rel),
    ensures
        s@ == relation_name(*rel),
{
    match rel.get_str("type") {
        Some(t) => t.to_owned(),
        None => String::new(),
    }
}

fn relation_target_exec(rel: &Yaml) -> (s: String)
    requires
        edge_like(*rel),
    ensures
        s@ == relation_target(*rel),
{
    let tm = match rel.get("target") {
        Some(t) => t,
        None => {
            return String::new();
        },
    };
    let object = match tm.get_str("object") {
        Some(o) => o,
        None => "",
    };
    match tm.get_str("claim") {
        Some(c) => crate::text::concat3(object, "#", c),
        None => object.to_owned(),
    }
}

fn is_edge_like(rel: &Yaml) -> (b: bool)
    ensures
        b == edge_like(*rel),
{
    if !rel.is_mapping() || rel.get_str("type").is_none() {
        return false;
    }
    match rel.get("target") {
        Some(tm) => tm.is_mapping() && tm.get_str("object").is_some(),
        None => false,
    }
}

fn authored_text_exec(source: &str, rel: &Yaml, path: &str) -> (s: String)
    requires
        edge_like(*rel),
    ensures
        s@ == authored_text(source@, *rel, path@),
{
    let mut out: Vec<char> = Vec::new();
    push_str_chars(&mut out, "{\"note\":");
    let note = lossless_or_null_text(rel.get("note"));
    push_str_chars(&mut out, note.as_str());
    push_str_chars(&mut out, ",\"path\":");
    push_json_string(&mut out, path);
    push_str_chars(&mut out, ",\"relation\":");
    let name = relation_name_exec(rel);
    push_json_string(&mut out, name.as_str());
    push_str_chars(&mut out, ",\"selectors\":");
    let sel = lossless_or_null_text(rel.get("selectors"));
    push_str_chars(&mut out, sel.as_str());
    push_str_chars(&mut out, ",\"source\":");
    push_json_string(&mut out, source);
    push_str_chars(&mut out, ",\"target\":");
    let target = relation_target_exec(rel);
    push_json_string(&mut out, target.as_str());
    push_str_chars(&mut out, "}");
    assert(out@ =~= authored_text(source@, *rel, path@));
    string_from_chars(&out)
}

fn generated_text_exec(source: &str, name: &str, target: &str, inverse: &str, path: &str) -> (s: String)
    ensures
        s@ == generated_text(source@, name@, target@, inverse@, path@),
{
    let mut out: Vec<char> = Vec::new();
    push_str_chars(&mut out, "{\"generated_from\":");
    push_json_string(&mut out, name);
    push_str_chars(&mut out, ",\"path\":");
    push_json_string(&mut out, path);
    push_str_chars(&mut out, ",\"relation\":");
    push_json_string(&mut out, inverse);
    push_str_chars(&mut out, ",\"source\":");
    push_json_string(&mut out, target);
    push_str_chars(&mut out, ",\"target\":");
    push_json_string(&mut out, source);
    push_str_chars(&mut out, "}");
    assert(out@ =~= generated_text(source@, name@, target@, inverse@, path@));
    string_from_chars(&out)
}

fn edges_text(edges: &Vec<(String, String, String, String)>) -> (s: String)
    ensures
        s@ == edge_texts(edge_views(edges@)),
{
    let ghost parts = edge_views(edges@).map_values(|e: (Seq<char>, Seq<char>, Seq<char>, Seq<char>)| e.3);
    let mut out: Vec<char> = Vec::new();
    let mut q: usize = 0;
    while q < edges.len()
        invariant
            parts == edge_views(edges@).map_values(|e: (Seq<char>, Seq<char>, Seq<char>, Seq<char>)| e.3),
            q <= edges.len(),
            out@ == joined(parts.take(q as int)),
        decreases edges.len() - q,
    {
        proof {
            lemma_joined_step(parts, q as int);
        }
        assert(parts[q as int] == edges@[q as int].3@);
        push_part(&mut out, q, edges[q].3.as_str());
        q = q + 1;
    }
    assert(parts.take(edges.len() as int) =~= parts);
    string_from_chars(&out)
}

/// The relation graph of the documents as compact JSON.
pub fn render_graph(documents: &[SemanticDocument], registries: &Registries) -> (s: String)
    ensures
        s@ == graph_text(documents@, relation_views(registries.relations@)),
{
    let ghost rules = relation_views(registries.relations@);
    let mut authored: Vec<(String, String, String, String)> = Vec::new();
    let mut generated: Vec<(String, String, String, String)> = Vec::new();
    let ghost mut seen: Seq<(Seq<char>, Yaml, Seq<char>)> = Seq::empty();
    let mut i: usize = 0;
    assert(path_slots(documents@.take(0)) =~= seen);
    while i < documents.len()
        invariant
            rules == relation_views(registries.relations@),
            i <= documents.len(),
            seen == path_slots(documents@.take(i as int)),
            edge_views(authored@) == authored_edges(seen, seen.len() as int),
            edge_views(generated@) == generated_edges(seen, rules, seen.len() as int),
        decreases documents.len() - i,
    {
        let d = &documents[i];
        let path = slashed_text(d.path.as_str());
        let slots = document_slots(d);
        let ghost added = with_path(slot_views(slots@), path@);
        let ghost base = seen;
        let mut j: usize = 0;
        while j < slots.len()
            invariant
                rules == relation_views(registries.relations@),
                j <= slots.len(),
                added == with_path(slot_views(slots@), path@),
                seen == base + added.take(j as int),
                edge_views(authored@) == authored_edges(seen, seen.len() as int),
                edge_views(generated@) == generated_edges(seen, rules, seen.len() as int),
            decreases slots.len() - j,
        {
            let source = &slots[j].0;
            let rel: &Yaml = slots[j].1;
            let ghost slot = (source@, *rel, path@);
            assert(added[j as int] == slot);
            let ghost next = seen.push(slot);
            assert(next.take(seen.len() as int) =~= seen);
            proof {
                lemma_authored_prefix(next, seen.len() as int);
                lemma_generated_prefix(next, rules, seen.len() as int);
            }
            if is_edge_like(rel) {
                let name = relation_name_exec(rel);
                let target = relation_target_exec(rel);
                let text = authored_text_exec(source.as_str(), rel, path.as_str());
                insert_edge(&mut authored, (source.clone(), name.clone(), target.clone(), text));
                match crate::okf::relations::find_relation_rule(&registries.relations, name.as_str()) {
                    Some(rule) => {
                        let g = generated_text_exec(source.as_str(), name.as_str(), target.as_str(), rule.inverse.as_str(), path.as_str());
                        insert_edge(&mut generated, (target, rule.inverse.clone(), source.clone(), g));
                    },
                    None => {},
                }
            }
            proof {
                seen = next;
                assert(base + added.take(j + 1) =~= seen);
            }
            j = j + 1;
        }
        proof {
            assert(added.take(slots.len() as int) =~= added);
            assert(documents@.take(i + 1).drop_last() =~= documents@.take(i as int));
            assert(documents@.take(i + 1).last() == *d);
            assert(path_slots(documents@.take(i + 1)) == path_slots(documents@.take(i as int)) + added);
        }
        i = i + 1;
    }
    assert(documents@.take(documents.len() as int) =~= documents@);
    let mut out: Vec<char> = Vec::new();
    push_str_chars(&mut out, "{\"authored\":[");
    let a = edges_text(&authored);
    push_str_chars(&mut out, a.as_str());
    push_str_chars(&mut out, "],\"generated\":[");
    let g = edges_text(&generated);
    push_str_chars(&mut out, g.as_str());
    push_str_chars(&mut out, "]}");
    assert(out@ =~= graph_text(documents@, rules));
    string_from_chars(&out)
}

proof fn lemma_authored_prefix(slots: Seq<(Seq<char>, Yaml, Seq<char>)>, k: int)
    requires
        0 <= k <= slots.len(),
    ensures
        authored_edges(slots, k) == authored_edges(slots.take(k), k),
    decreases k,
{
    if k > 0 {
        lemma_authored_prefix(slots, k - 1);
        lemma_authored_prefix(slots.take(k), k - 1);
        assert(slots.take(k).take(k - 1) =~= slots.take(k - 1));
        assert(slots.take(k)[k - 1] == slots[k - 1]);
    }
}

proof fn lemma_generated_prefix(slots: Seq<(Seq<char>, Yaml, Seq<char>)>, rules: Seq<(Seq<char>, RuleView)>, k: int)
    requires
        0 <= k <= slots.len(),
    ensures
        generated_edges(slots, rules, k) == generated_edges(slots.take(k), rules, k),
    decreases k,
{
    if k > 0 {
        lemma_generated_prefix(slots, rules, k - 1);
        lemma_generated_prefix(slots.take(k), rules, k - 1);
        assert(slots.take(k).take(k - 1) =~= slots.take(k - 1));
        assert(slots.take(k)[k - 1] == slots[k - 1]);
    }
}

/// The JSON text of a review item: a draft carries a message, a freshness
/// condition the effective freshness.
pub open spec fn review_item_text(i: (Seq<char>, Seq<char>, Option<Seq<char>>)) -> Seq<char> {
    if i.0 == "draft"@ {
        "{\"id\":"@ + json_string(i.1) + ",\"kind\":"@ + json_string(i.0)
            + ",\"message\":\"draft knowledge is not settled current truth\"}"@
    } else {
        "{\"effective_freshness\":"@ + json_string(
            match i.2 {
                Some(e) => e,
                None => Seq::empty(),
            },
        ) + ",\"id\":"@ + json_string(i.1) + ",\"kind\":"@ + json_string(i.0) + "}"@
    }
}

/// The review list: `{"items": [...]}`.
pub open spec fn review_text(items: Seq<(Seq<char>, Seq<char>, Option<Seq<char>>)>) -> Seq<char> {
    "{\"items\":["@ + joined(items.map_values(|i: (Seq<char>, Seq<char>, Option<Seq<char>>)| review_item_text(i))) + "]}"@
}

fn review_item_json(item: &ReviewItem) -> (s: String)
    ensures
        s@ == review_item_text(item_view(*item)),
{
    proof {
        reveal_strlit("");
    }
    let mut out: Vec<char> = Vec::new();
    if str_eq(item.kind.as_str(), "draft") {
        push_str_chars(&mut out, "{\"id\":");
        push_json_string(&mut out, item.id.as_str());
        push_str_chars(&mut out, ",\"kind\":");
        push_json_string(&mut out, item.kind.as_str());
        push_str_chars(&mut out, ",\"message\":\"draft knowledge is not settled current truth\"}");
    } else {
        push_str_chars(&mut out, "{\"effective_freshness\":");
        match &item.effective {
            Some(e) => push_json_string(&mut out, e.as_str()),
            None => push_json_string(&mut out, ""),
        }
        push_str_chars(&mut out, ",\"id\":");
        push_json_string(&mut out, item.id.as_str());
        push_str_chars(&mut out, ",\"kind\":");
        push_json_string(&mut out, item.kind.as_str());
        push_str_chars(&mut out, "}");
    }
    assert(out@ =~= review_item_text(item_view(*item)));
    string_from_chars(&out)
}

/// The review list of the documents as compact JSON.
pub fn render_review(documents: &[SemanticDocument]) -> (s: String)
    ensures
        s@ == review_text(review_report(documents@)),
{
    let items = review_items(documents);
    let ghost iv = items@.map_values(|i: ReviewItem| item_view(i));
    let ghost parts = iv.map_values(|i: (Seq<char>, Seq<char>, Option<Seq<char>>)| review_item_text(i));
    let mut out: Vec<char> = Vec::new();
    push_str_chars(&mut out, "{\"items\":[");
    let ghost head = out@;
    let mut q: usize = 0;
    while q < items.len()
        invariant
            iv == items@.map_values(|i: ReviewItem| item_view(i)),
            parts == iv.map_values(|i: (Seq<char>, Seq<char>, Option<Seq<char>>)| review_item_text(i)),
            q <= items.len(),
            out@ == head + joined(parts.take(q as int)),
        decreases items.len() - q,
    {
        proof {
            lemma_joined_step(parts, q as int);
        }
        let t = review_item_json(&items[q]);
        assert(parts[q as int] == t@);
        push_part(&mut out, q, t.as_str());
        q = q + 1;
    }
    assert(parts.take(items.len() as int) =~= parts);
    push_str_chars(&mut out, "]}");
    assert(out@ =~= review_text(review_report(documents@)));
    string_from_chars(&out)
}

/// The lines of a list, one `- kind id` per item.
pub open spec fn review_md_lines(items: Seq<(Seq<char>, Seq<char>, Option<Seq<char>>)>) -> Seq<char>
    decreases items.len(),
{
    if items.len() == 0 {
        Seq::empty()
    } else {
        review_md_lines(items.drop_last()) + "- "@ + items.last().0 + " "@ + items.last().1 + "\n"@
    }
}

/// The review list as Markdown.
pub open spec fn review_markdown_text(items: Seq<(Seq<char>, Seq<char>, Option<Seq<char>>)>) -> Seq<char> {
    "# OKF Review\n\n> Generated. Do not edit directly.\n\n"@ + if items.len() == 0 {
        "No review items.\n"@
    } else {
        review_md_lines(items)
    }
}

/// The review list as Markdown.
pub fn render_review_markdown(items: &[ReviewItem]) -> (s: String)
    ensures
        s@ == review_markdown_text(items@.map_values(|i: ReviewItem| item_view(i))),
{
    let ghost iv = items@.map_values(|i: ReviewItem| item_view(i));
    let mut out: Vec<char> = Vec::new();
    push_str_chars(&mut out, "# OKF Review\n\n> Generated. Do not edit directly.\n\n");
    let ghost head = out@;
    if items.len() == 0 {
        push_str_chars(&mut out, "No review items.\n");
        return string_from_chars(&out);
    }
    let mut q: usize = 0;
    while q < items.len()
        invariant
            iv == items@.map_values(|i: ReviewItem| item_view(i)),
            q <= items.len(),
            out@ == head + review_md_lines(iv.take(q as int)),
        decreases items.len() - q,
    {
        assert(iv.take(q + 1).drop_last() =~= iv.take(q as int));
        assert(iv.take(q + 1).last() == item_view(items@[q as int]));
        push_str_chars(&mut out, "- ");
        push_str_chars(&mut out, items[q].kind.as_str());
        push_str_chars(&mut out, " ");
        push_str_chars(&mut out, items[q].id.as_str());
        push_str_chars(&mut out, "\n");
        assert(out@ =~= head + review_md_lines(iv.take(q + 1)));
        q = q + 1;
    }
    assert(iv.take(items.len() as int) =~= iv);
    string_from_chars(&out)
}

/// A curated route: its ID, title and description, when its front matter is
/// a mapping with a non-empty `route_id` (the title defaults to the ID).
pub open spec fn route_of(fm: Yaml) -> Option<(Seq<char>, Seq<char>, Seq<char>)> {
    if !is_map(Some(fm)) {
        None
    } else {
        let id = text_or_empty(fm, "route_id"@);
        if id.len() == 0 {
            None
        } else {
            Some((
                id,
                match str_field(fm, "title"@) {
                    Some(t) => t,
                    None => id,
                },
                text_or_empty(fm, "description"@),
            ))
        }
    }
}

/// The sort keys of the usable routes among the first `k`.
pub open spec fn route_keys(routes: Seq<(String, Yaml)>, k: int) -> Seq<(Seq<char>, Seq<char>, int)>
    decreases k,
{
    if k <= 0 || k > routes.len() {
        Seq::empty()
    } else {
        let prev = route_keys(routes, k - 1);
        match route_of(routes[k - 1].1) {
            Some(r) => prev.push((r.0, Seq::empty(), k - 1)),
            None => prev,
        }
    }
}

/// A path relative to the knowledge base directory.
pub open spec fn relative_route(p: Seq<char>) -> Seq<char> {
    if starts_with(p, "okf/"@) {
        p.skip(4)
    } else {
        p
    }
}

/// The list line of a route.
pub open spec fn route_line(path: Seq<char>, r: (Seq<char>, Seq<char>, Seq<char>)) -> Seq<char> {
    "- ["@ + r.1 + "]("@ + relative_route(slashed(path)) + ") — "@ + r.2 + "\n"@
}

/// The lines of the routes in the given order.
pub open spec fn route_lines(routes: Seq<(String, Yaml)>, order: Seq<(Seq<char>, Seq<char>, int)>) -> Seq<char>
    decreases order.len(),
{
    if order.len() == 0 {
        Seq::empty()
    } else {
        route_lines(routes, order.drop_last()) + route_line(
            routes[order.last().2].0@,
            route_of(routes[order.last().2].1)->Some_0,
        )
    }
}

/// The curated routes section: each route sorted by ID, or a note that
/// there are none. `routes` holds each route file's path and front matter.
pub open spec fn curated_text(routes: Seq<(String, Yaml)>) -> Seq<char> {
    let order = keyed_sort(route_keys(routes, routes.len() as int));
    if order.len() == 0 {
        "- No curated routes.\n\n"@
    } else {
        route_lines(routes, order) + "\n"@
    }
}

proof fn lemma_keyed_sort_len(s: Seq<(Seq<char>, Seq<char>, int)>)
    ensures
        keyed_sort(s).len() == s.len(),
    decreases s.len(),
{
    if s.len() > 0 {
        lemma_keyed_sort_len(s.drop_last());
        crate::okf::views::lemma_keyed_insert_len(keyed_sort(s.drop_last()), s.last());
    }
}

/// The curated routes section of the index.
pub fn render_curated_routes(routes: &[(String, Yaml)]) -> (s: String)
    ensures
        s@ == curated_text(routes@),
{
    let mut order: Vec<(String, String, usize)> = Vec::new();
    let mut k: usize = 0;
    while k < routes.len()
        invariant
            k <= routes.len(),
            keyed_views(order@) == keyed_sort(route_keys(routes@, k as int)),
            forall|j: int| 0 <= j < order.len() ==> #[trigger] order@[j].2 < k && route_of(routes@[order@[j].2 as int].1) is Some,
        decreases routes.len() - k,
    {
        let fm = &routes[k].1;
        proof {
            reveal_strlit("");
        }
        if fm.is_mapping() {
            let id = text_or_empty_exec(fm, "route_id");
            if !str_eq(id.as_str(), "") {
                let ghost before = keyed_views(order@);
                let ghost e = (id@, Seq::<char>::empty(), k as int);
                keyed_insert_exec(&mut order, (id, String::new(), k));
                proof {
                    assert(routes@[k as int].1 == *fm);
                    if id@.len() == 0 {
                        assert(id@ =~= ""@);
                    }
                    assert(route_of(*fm) is Some);
                    assert(route_keys(routes@, k + 1) == route_keys(routes@, k as int).push(e));
                    assert(route_keys(routes@, k as int).push(e).drop_last() =~= route_keys(routes@, k as int));
                    assert forall|j: int| 0 <= j < order.len() implies #[trigger] order@[j].2 < k + 1 && route_of(routes@[order@[j].2 as int].1) is Some by {
                        crate::okf::views::lemma_keyed_insert_members(before, e, j);
                        assert(keyed_views(order@)[j].2 == order@[j].2 as int);
                    }
                }
            }
        }
        k = k + 1;
    }
    let ghost ord = keyed_views(order@);
    let mut out: Vec<char> = Vec::new();
    if order.len() == 0 {
        push_str_chars(&mut out, "- No curated routes.\n\n");
        return string_from_chars(&out);
    }
    let mut q: usize = 0;
    while q < order.len()
        invariant
            ord == keyed_views(order@),
            ord == keyed_sort(route_keys(routes@, routes@.len() as int)),
            forall|j: int| 0 <= j < order.len() ==> #[trigger] order@[j].2 < routes.len() && route_of(routes@[order@[j].2 as int].1) is Some,
            q <= order.len(),
            out@ == route_lines(routes@, ord.take(q as int)),
        decreases order.len() - q,
    {
        let idx = order[q].2;
        assert(ord[q as int].2 == idx as int);
        assert(ord.take(q + 1).drop_last() =~= ord.take(q as int));
        assert(ord.take(q + 1).last() == ord[q as int]);
        let fm = &routes[idx].1;
        let id = text_or_empty_exec(fm, "route_id");
        let title = match fm.get_str("title") {
            Some(t) => t.to_owned(),
            None => id.clone(),
        };
        let description = text_or_empty_exec(fm, "description");
        let path = slashed_text(routes[idx].0.as_str());
        push_str_chars(&mut out, "- [");
        push_str_chars(&mut out, title.as_str());
        push_str_chars(&mut out, "](");
        proof {
            reveal_strlit("okf/");
        }
        if starts_with_str(path.as_str(), "okf/") {
            let pc = str_chars(path.as_str());
            let rest = crate::text::slice_chars(pc.as_slice(), 4, pc.len());
            assert(rest@ =~= path@.skip(4));
            let mut r: usize = 0;
            let ghost before = out@;
            while r < rest.len()
                invariant
                    r <= rest.len(),
                    out@ == before + rest@.take(r as int),
                decreases rest.len() - r,
            {
                out.push(rest[r]);
                assert(rest@.take(r + 1) =~= rest@.take(r as int).push(rest@[r as int]));
                r = r + 1;
            }
            assert(rest@.take(rest.len() as int) =~= rest@);
        } else {
            push_str_chars(&mut out, path.as_str());
        }
        push_str_chars(&mut out, ") — ");
        push_str_chars(&mut out, description.as_str());
        push_str_chars(&mut out, "\n");
        assert(out@ =~= route_lines(routes@, ord.take(q + 1)));
        q = q + 1;
    }
    assert(ord.take(order.len() as int) =~= ord);
    push_str_chars(&mut out, "\n");
    string_from_chars(&out)
}

/// The sections of the index: heading, lifecycle, and type (empty for any).
pub open spec fn index_sections() -> Seq<(Seq<char>, Seq<char>, Seq<char>)> {
    seq![
        ("Active systems"@, "active"@, "system"@),
        ("Current decisions"@, "active"@, "decision"@),
        ("Active concepts"@, "active"@, "concept"@),
        ("Active entities"@, "active"@, "entity"@),
        ("Active research"@, "active"@, "research"@),
        ("Active references"@, "active"@, "reference"@),
        ("Historical / deprecated"@, "deprecated"@, ""@),
        ("Draft knowledge"@, "draft"@, ""@),
    ]
}

/// A document belongs to the section for `lifecycle` and type `t`.
pub open spec fn in_section(d: SemanticDocument, lifecycle: Seq<char>, t: Seq<char>) -> bool {
    str_field(d.frontmatter, "lifecycle"@) == Some(lifecycle) && (t.len() == 0 || str_field(d.frontmatter, "type"@)
        == Some(t))
}

/// The sort keys (by ID) of the section's documents among the first `k`.
pub open spec fn section_keys(docs: Seq<SemanticDocument>, lifecycle: Seq<char>, t: Seq<char>, k: int) -> Seq<
    (Seq<char>, Seq<char>, int),
>
    decreases k,
{
    if k <= 0 || k > docs.len() {
        Seq::empty()
    } else {
        let prev = section_keys(docs, lifecycle, t, k - 1);
        if in_section(docs[k - 1], lifecycle, t) {
            prev.push((text_or_empty(docs[k - 1].frontmatter, "id"@), Seq::empty(), k - 1))
        } else {
            prev
        }
    }
}

/// The index line of a document.
pub open spec fn index_line(d: SemanticDocument) -> Seq<char> {
    let m = d.frontmatter;
    "- "@ + text_or_empty(m, "id"@) + " — "@ + text_or_empty(m, "title"@) + " ("@ + text_or_empty(m, "description"@) + ")\n"@
}

/// The index lines of the documents in the given order.
pub open spec fn index_lines(docs: Seq<SemanticDocument>, order: Seq<(Seq<char>, Seq<char>, int)>) -> Seq<char>
    decreases order.len(),
{
    if order.len() == 0 {
        Seq::empty()
    } else {
        index_lines(docs, order.drop_last()) + index_line(docs[order.last().2])
    }
}

/// One section of the index.
pub open spec fn section_text(docs: Seq<SemanticDocument>, sec: (Seq<char>, Seq<char>, Seq<char>)) -> Seq<char> {
    let order = keyed_sort(section_keys(docs, sec.1, sec.2, docs.len() as int));
    "## "@ + sec.0 + "\n\n"@ + if order.len() == 0 {
        "- None.\n\n"@
    } else {
        index_lines(docs, order) + "\n"@
    }
}

/// The given sections of the index, in order.
pub open spec fn sections_text(docs: Seq<SemanticDocument>, secs: Seq<(Seq<char>, Seq<char>, Seq<char>)>) -> Seq<char>
    decreases secs.len(),
{
    if secs.len() == 0 {
        Seq::empty()
    } else {
        sections_text(docs, secs.drop_last()) + section_text(docs, secs.last())
    }
}

/// The index: the curated routes, one section per lifecycle and type, and
/// whether there is anything to review.
pub open spec fn index_text(docs: Seq<SemanticDocument>, curated: Seq<char>, has_items: bool) -> Seq<char> {
    "# map-analyzer-custom OKF Project Brain\n\n> Generated. Do not edit directly.\n\n"@ + "## Curated routes\n\n"@
        + curated + sections_text(docs, index_sections()) + "## Needs review\n\n"@ + if has_items {
        "- See generated/review.md.\n"@
    } else {
        "- None.\n"@
    }
}

fn in_section_exec(d: &SemanticDocument, lifecycle: &str, t: &str) -> (b: bool)
    ensures
        b == in_section(*d, lifecycle@, t@),
{
    proof {
        reveal_strlit("");
    }
    let m = &d.frontmatter;
    let l_ok = match m.get_str("lifecycle") {
        Some(l) => str_eq(l, lifecycle),
        None => false,
    };
    if !l_ok {
        return false;
    }
    if str_eq(t, "") {
        return true;
    }
    proof {
        if t@.len() == 0 {
            assert(t@ =~= ""@);
        }
    }
    match m.get_str("type") {
        Some(x) => str_eq(x, t),
        None => false,
    }
}

fn push_section(out: &mut Vec<char>, documents: &[SemanticDocument], heading: &str, lifecycle: &str, t: &str)
    ensures
        final(out)@ == old(out)@ + section_text(documents@, (heading@, lifecycle@, t@)),
{
    let ghost start = out@;
    let mut order: Vec<(String, String, usize)> = Vec::new();
    let mut k: usize = 0;
    while k < documents.len()
        invariant
            k <= documents.len(),
            keyed_views(order@) == keyed_sort(section_keys(documents@, lifecycle@, t@, k as int)),
            forall|j: int| 0 <= j < order.len() ==> #[trigger] order@[j].2 < k,
        decreases documents.len() - k,
    {
        let d = &documents[k];
        if in_section_exec(d, lifecycle, t) {
            let id = text_or_empty_exec(&d.frontmatter, "id");
            let ghost before = keyed_views(order@);
            let ghost e = (id@, Seq::<char>::empty(), k as int);
            keyed_insert_exec(&mut order, (id, String::new(), k));
            proof {
                let sk = section_keys(documents@, lifecycle@, t@, k as int);
                assert(section_keys(documents@, lifecycle@, t@, k + 1) == sk.push(e));
                assert(sk.push(e).drop_last() =~= sk);
                assert forall|j: int| 0 <= j < order.len() implies #[trigger] order@[j].2 < k + 1 by {
                    crate::okf::views::lemma_keyed_insert_members(before, e, j);
                    assert(keyed_views(order@)[j].2 == order@[j].2 as int);
                }
            }
        }
        k = k + 1;
    }
    let ghost ord = keyed_views(order@);
    push_str_chars(out, "## ");
    push_str_chars(out, heading);
    push_str_chars(out, "\n\n");
    let ghost head = out@;
    if order.len() == 0 {
        push_str_chars(out, "- None.\n\n");
        assert(out@ =~= start + section_text(documents@, (heading@, lifecycle@, t@)));
        return;
    }
    let mut q: usize = 0;
    while q < order.len()
        invariant
            ord == keyed_views(order@),
            forall|j: int| 0 <= j < order.len() ==> #[trigger] order@[j].2 < documents.len(),
            q <= order.len(),
            out@ == head + index_lines(documents@, ord.take(q as int)),
        decreases order.len() - q,
    {
        let idx = order[q].2;
        assert(ord[q as int].2 == idx as int);
        assert(ord.take(q + 1).drop_last() =~= ord.take(q as int));
        assert(ord.take(q + 1).last() == ord[q as int]);
        let m = &documents[idx].frontmatter;
        let id = text_or_empty_exec(m, "id");
        let title = text_or_empty_exec(m, "title");
        let description = text_or_empty_exec(m, "description");
        push_str_chars(out, "- ");
        push_str_chars(out, id.as_str());
        push_str_chars(out, " — ");
        push_str_chars(out, title.as_str());
        push_str_chars(out, " (");
        push_str_chars(out, description.as_str());
        push_str_chars(out, ")\n");
        assert(out@ =~= head + index_lines(documents@, ord.take(q + 1)));
        q = q + 1;
    }
    assert(ord.take(order.len() as int) =~= ord);
    push_str_chars(out, "\n");
    assert(out@ =~= start + section_text(documents@, (heading@, lifecycle@, t@)));
}

/// The index of the documents as Markdown: `routes` holds each curated
/// route file's path and front matter, `items` the review conditions.
pub fn render_index(documents: &[SemanticDocument], routes: &[(String, Yaml)], items: &[ReviewItem]) -> (s: String)
    ensures
        s@ == index_text(documents@, curated_text(routes@), items.len() > 0),
{
    let mut out: Vec<char> = Vec::new();
    push_str_chars(&mut out, "# map-analyzer-custom OKF Project Brain\n\n> Generated. Do not edit directly.\n\n");
    push_str_chars(&mut out, "## Curated routes\n\n");
    let curated = render_curated_routes(routes);
    push_str_chars(&mut out, curated.as_str());
    let ghost head = out@;
    let sections: [(&str, &str, &str); 8] = [
        ("Active systems", "active", "system"),
        ("Current decisions", "active", "decision"),
        ("Active concepts", "active", "concept"),
        ("Active entities", "active", "entity"),
        ("Active research", "active", "research"),
        ("Active references", "active", "reference"),
        ("Historical / deprecated", "deprecated", ""),
        ("Draft knowledge", "draft", ""),
    ];
    let ghost secs = sections@.map_values(|x: (&str, &str, &str)| (x.0@, x.1@, x.2@));
    assert(secs =~= index_sections());
    let mut i: usize = 0;
    while i < 8
        invariant
            secs == sections@.map_values(|x: (&str, &str, &str)| (x.0@, x.1@, x.2@)),
            i <= 8,
            out@ == head + sections_text(documents@, secs.take(i as int)),
        decreases 8 - i,
    {
        let (heading, lifecycle, t) = sections[i];
        assert(secs[i as int] == (heading@, lifecycle@, t@));
        assert(secs.take(i + 1).drop_last() =~= secs.take(i as int));
        push_section(&mut out, documents, heading, lifecycle, t);
        i = i + 1;
    }
    assert(secs.take(8) =~= secs);
    push_str_chars(&mut out, "## Needs review\n\n");
    if items.len() > 0 {
        push_str_chars(&mut out, "- See generated/review.md.\n");
    } else {
        push_str_chars(&mut out, "- None.\n");
    }
    assert(out@ =~= index_text(documents@, curated_text(routes@), items.len() > 0));
    string_from_chars(&out)
}

/// The drift diagnostics of the generated outputs: one for each output whose
/// file does not hold the expected bytes. `checks[k]` is an output's path,
/// its code, and whether its file matches.
pub open spec fn drift_report(checks: Seq<(String, String, bool)>) -> Seq<(Seq<char>, Seq<char>)>
    decreases checks.len(),
{
    if checks.len() == 0 {
        Seq::empty()
    } else if checks.last().2 {
        drift_report(checks.drop_last())
    } else {
        drift_report(checks.drop_last()).push(
            (checks.last().0@, "generated output drift ("@ + checks.last().1@ + ")"@),
        )
    }
}

/// The drift diagnostics of the generated outputs.
pub fn drift_diagnostics(checks: &[(String, String, bool)]) -> (ds: Vec<Diagnostic>)
    ensures
        ds@.map_values(|d: Diagnostic| (d.path@, d.message@)) == drift_report(checks@),
{
    let mut ds: Vec<Diagnostic> = Vec::new();
    let mut i: usize = 0;
    while i < checks.len()
        invariant
            i <= checks.len(),
            ds@.map_values(|d: Diagnostic| (d.path@, d.message@)) == drift_report(checks@.take(i as int)),
        decreases checks.len() - i,
    {
        assert(checks@.take(i + 1).drop_last() =~= checks@.take(i as int));
        assert(checks@.take(i + 1).last() == checks@[i as int]);
        if !checks[i].2 {
            let ghost before = ds@.map_values(|d: Diagnostic| (d.path@, d.message@));
            let message = crate::text::concat3("generated output drift (", checks[i].1.as_str(), ")");
            let d = Diagnostic { path: checks[i].0.clone(), message };
            ds.push(d);
            assert(ds@.map_values(|d: Diagnostic| (d.path@, d.message@)) =~= before.push(
                (checks@[i as int].0@, "generated output drift ("@ + checks@[i as int].1@ + ")"@),
            ));
        }
        i = i + 1;
    }
    assert(checks@.take(checks.len() as int) =~= checks@);
    ds
}

/// What serde_json makes of a JSON text: the `serde_json::Value` it reads,
/// written back by `serde_json::to_string_pretty` (two-space indentation);
/// or the message of the error that stopped it.
pub uninterp spec fn pretty_json(text: Seq<char>) -> Result<Seq<char>, Seq<char>>;

/// `serde_json::to_string_pretty` over `serde_json::from_str`: the text read
/// into a `serde_json::Value` and written back indented, or the error's
/// message. Trusted: the contract names the outcome, text or message, as a
/// function of the text alone, and says nothing of its form.
#[verifier::external_body]
fn pretty_json_text(text: &str) -> (r: Result<String, String>)
    ensures
        text_result(r) == pretty_json(text@),
{
    match serde_json::from_str::<serde_json::Value>(text) {
        Ok(value) => match serde_json::to_string_pretty(&value) {
            Ok(pretty) => Ok(pretty),
            Err(error) => Err(error.to_string()),
        },
        Err(error) => Err(error.to_string()),
    }
}

/// A generated JSON file: the JSON text written pretty, with a final
/// newline; or why it could not be.
pub open spec fn json_file(text: Seq<char>) -> Result<Seq<char>, Seq<char>> {
    match pretty_json(text) {
        Ok(pretty) => Ok(pretty + seq!['\n']),
        Err(e) => Err(e),
    }
}

/// The bytes of a generated JSON file, from the compact JSON that the
/// catalog, graph or review render gives.
pub fn json_bytes(text: &str) -> (r: Result<Vec<u8>, String>)
    ensures
        match r {
            Ok(bytes) => json_file(text@) is Ok && bytes@ == encode_utf8(json_file(text@)->Ok_0),
            Err(e) => json_file(text@) == Err::<Seq<char>, Seq<char>>(e@),
        },
{
    match pretty_json_text(text) {
        Ok(pretty) => {
            let file = concat2(pretty.as_str(), "\n");
            proof {
                reveal_strlit("\n");
            }
            assert(file@ =~= pretty@ + seq!['\n']);
            let bytes = file.as_str().as_bytes_vec();
            assert(bytes@ == encode_utf8(file@));
            Ok(bytes)
        },
        Err(e) => Err(e),
    }
}

} // verus!
