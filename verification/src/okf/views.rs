//! Read-only views of the knowledge base: retrieval by ID, decision key or
//! text, and the review conditions.

use vstd::prelude::*;

use crate::okf::cli::{option_value, option_value_spec, views};
use crate::okf::diagnostics::{contains, contains_str, lower, lower_chars};
use crate::okf::document::SemanticDocument;
use crate::okf::edges::text_or_empty;
use crate::okf::freshness::{effective_freshness, freshness_of};
use crate::okf::registries::{text_less, text_less_exec};
use crate::okf::yaml::str_field;
use crate::text::{chars_eq, concat2, push_str_chars, str_chars, str_eq, string_from_chars};

verus! {

/// The Unicode lower-case form of a text.
pub uninterp spec fn unicode_lowercase(s: Seq<char>) -> Seq<char>;

/// `str::to_lowercase`: the Unicode lower-case mapping of `s`. Trusted: the
/// result is named, not stated.
#[verifier::external_body]
pub(crate) fn to_lowercase(s: &str) -> (r: String)
    ensures
        r@ == unicode_lowercase(s@),
{
    s.to_lowercase()
}

/// `(a1, a2)` sorts before `(b1, b2)`.
pub open spec fn pair_less(a1: Seq<char>, a2: Seq<char>, b1: Seq<char>, b2: Seq<char>) -> bool {
    text_less(a1, b1) || (a1 == b1 && text_less(a2, b2))
}

/// Inserts a keyed entry before the first entry with a greater key, so that
/// entries with equal keys keep their order.
pub open spec fn keyed_insert(s: Seq<(Seq<char>, Seq<char>, int)>, e: (Seq<char>, Seq<char>, int)) -> Seq<(Seq<char>, Seq<char>, int)>
    decreases s.len(),
{
    if s.len() == 0 {
        seq![e]
    } else if pair_less(e.0, e.1, s[0].0, s[0].1) {
        seq![e] + s
    } else {
        seq![s[0]] + keyed_insert(s.drop_first(), e)
    }
}

/// The keyed entries in ascending key order, equal keys in their given
/// order (a stable sort).
pub open spec fn keyed_sort(s: Seq<(Seq<char>, Seq<char>, int)>) -> Seq<(Seq<char>, Seq<char>, int)>
    decreases s.len(),
{
    if s.len() == 0 {
        Seq::empty()
    } else {
        keyed_insert(keyed_sort(s.drop_last()), s.last())
    }
}

proof fn lemma_keyed_insert(s: Seq<(Seq<char>, Seq<char>, int)>, e: (Seq<char>, Seq<char>, int), p: int)
    requires
        0 <= p <= s.len(),
        forall|j: int| 0 <= j < p ==> !pair_less(e.0, e.1, #[trigger] s[j].0, s[j].1),
        p < s.len() ==> pair_less(e.0, e.1, s[p].0, s[p].1),
    ensures
        keyed_insert(s, e) == s.take(p) + seq![e] + s.skip(p),
    decreases p,
{
    if p == 0 {
        if s.len() == 0 {
            assert(s.take(0) + seq![e] + s.skip(0) =~= seq![e]);
        } else {
            assert(s.take(0) + seq![e] + s.skip(0) =~= seq![e] + s);
        }
    } else {
        assert(!pair_less(e.0, e.1, s[0].0, s[0].1));
        let rest = s.drop_first();
        assert forall|j: int| 0 <= j < p - 1 implies !pair_less(e.0, e.1, #[trigger] rest[j].0, rest[j].1) by {
            assert(rest[j] == s[j + 1]);
        }
        if p - 1 < rest.len() {
            assert(rest[p - 1] == s[p]);
        }
        lemma_keyed_insert(rest, e, p - 1);
        assert(seq![s[0]] + (rest.take(p - 1) + seq![e] + rest.skip(p - 1)) =~= s.take(p) + seq![e] + s.skip(p));
    }
}

/// The views of keyed entries.
pub open spec fn keyed_views(v: Seq<(String, String, usize)>) -> Seq<(Seq<char>, Seq<char>, int)> {
    v.map_values(|e: (String, String, usize)| (e.0@, e.1@, e.2 as int))
}

pub(crate) fn keyed_insert_exec(v: &mut Vec<(String, String, usize)>, e: (String, String, usize))
    ensures
        keyed_views(final(v)@) == keyed_insert(keyed_views(old(v)@), (e.0@, e.1@, e.2 as int)),
{
    let ghost s = keyed_views(v@);
    let ghost ev = (e.0@, e.1@, e.2 as int);
    let mut p: usize = 0;
    while p < v.len()
        invariant
            s == keyed_views(v@),
            s == keyed_views(old(v)@),
            ev == (e.0@, e.1@, e.2 as int),
            p <= v.len(),
            forall|j: int| 0 <= j < p ==> !pair_less(ev.0, ev.1, #[trigger] s[j].0, s[j].1),
        decreases v.len() - p,
    {
        assert(s[p as int] == (v@[p as int].0@, v@[p as int].1@, v@[p as int].2 as int));
        let less = text_less_exec(e.0.as_str(), v[p].0.as_str()) || (str_eq(e.0.as_str(), v[p].0.as_str())
            && text_less_exec(e.1.as_str(), v[p].1.as_str()));
        if less {
            proof {
                lemma_keyed_insert(s, ev, p as int);
            }
            v.insert(p, e);
            assert(keyed_views(v@) =~= s.take(p as int) + seq![ev] + s.skip(p as int));
            return;
        }
        p = p + 1;
    }
    proof {
        lemma_keyed_insert(s, ev, p as int);
    }
    v.insert(p, e);
    assert(keyed_views(v@) =~= s.take(p as int) + seq![ev] + s.skip(p as int));
}

/// A document that `retrieve --decision-key key` finds: an active Decision
/// with that key.
pub open spec fn decision_for_key(d: SemanticDocument, key: Seq<char>) -> bool {
    let m = d.frontmatter;
    &&& str_field(m, "type"@) == Some("decision"@)
    &&& str_field(m, "decision_key"@) == Some(key)
    &&& str_field(m, "lifecycle"@) == Some("active"@)
}

/// A document that a free query finds: by ID, by decision key, by title
/// (ignoring ASCII case) or by a description containing the query (both
/// lower-cased).
pub open spec fn query_matches(d: SemanticDocument, q: Seq<char>) -> bool {
    let m = d.frontmatter;
    ||| str_field(m, "id"@) == Some(q)
    ||| str_field(m, "decision_key"@) == Some(q)
    ||| (match str_field(m, "title"@) {
        Some(t) => lower(t) == lower(q),
        None => false,
    })
    ||| (match str_field(m, "description"@) {
        Some(desc) => contains(unicode_lowercase(desc), unicode_lowercase(q)),
        None => false,
    })
}

/// The decision-key rule as a filter.
pub open spec fn decision_filter(key: Seq<char>) -> spec_fn(SemanticDocument) -> bool {
    |d: SemanticDocument| decision_for_key(d, key)
}

/// The query rule as a filter.
pub open spec fn query_filter(q: Seq<char>) -> spec_fn(SemanticDocument) -> bool {
    |d: SemanticDocument| query_matches(d, q)
}

/// The indices of the documents for which `keep` holds, keyed for sorting.
pub open spec fn keyed_matches(docs: Seq<SemanticDocument>, keep: spec_fn(SemanticDocument) -> bool, k: int) -> Seq<
    (Seq<char>, Seq<char>, int),
>
    decreases k,
{
    if k <= 0 {
        Seq::empty()
    } else {
        let rest = keyed_matches(docs, keep, k - 1);
        let d = docs[k - 1];
        if keep(d) {
            rest.push((text_or_empty(d.frontmatter, "type"@), text_or_empty(d.frontmatter, "id"@), k - 1))
        } else {
            rest
        }
    }
}

/// The line that lists a retrieved object.
pub open spec fn retrieved_line(docs: Seq<SemanticDocument>, d: SemanticDocument, lifecycle: Seq<char>) -> Seq<char> {
    let id = text_or_empty(d.frontmatter, "id"@);
    id + " ["@ + lifecycle + "; effective_freshness="@ + freshness_of(docs, id, Set::empty()).0 + "] "@
        + text_or_empty(d.frontmatter, "title"@)
}

/// What `retrieve` prints: for `--decision-key`, the single active Decision
/// with the key (or why there is none); otherwise the objects matching
/// `--id` or `--query`, ordered by type and then ID.
pub open spec fn retrieve_report(args: Seq<Seq<char>>, docs: Seq<SemanticDocument>) -> Result<Seq<Seq<char>>, Seq<char>> {
    match option_value_spec(args, "--decision-key"@) {
        Err(e) => Err(e),
        Ok(Some(key)) => {
            let found = keyed_matches(docs, decision_filter(key), docs.len() as int);
            if found.len() == 0 {
                Ok(seq!["No active Decision for decision_key "@ + key])
            } else if found.len() == 1 {
                Ok(seq![retrieved_line(docs, docs[found[0].2], "active"@)])
            } else {
                Ok(seq!["Structural error: multiple active Decisions for decision_key "@ + key])
            }
        },
        Ok(None) => match option_value_spec(args, "--id"@) {
            Err(e) => Err(e),
            Ok(by_id) => match option_value_spec(args, "--query"@) {
                Err(e) => Err(e),
                Ok(by_query) => {
                    let q = match by_id {
                        Some(i) => Some(i),
                        None => by_query,
                    };
                    match q {
                        None => Err("retrieve requires --id, --decision-key, or --query"@),
                        Some(query) => {
                            let sorted = keyed_sort(keyed_matches(docs, query_filter(query), docs.len() as int));
                            if sorted.len() == 0 {
                                Ok(seq!["No OKF match for "@ + query])
                            } else {
                                Ok(sorted.map_values(|e: (Seq<char>, Seq<char>, int)| retrieved_line(
                                    docs,
                                    docs[e.2],
                                    text_or_empty(docs[e.2].frontmatter, "lifecycle"@),
                                )))
                            }
                        },
                    }
                },
            },
        },
    }
}

fn text_or_empty_of(d: &SemanticDocument, key: &str) -> (s: String)
    ensures
        s@ == text_or_empty(d.frontmatter, key@),
{
    match d.frontmatter.get_str(key) {
        Some(t) => t.to_owned(),
        None => String::new(),
    }
}

fn is_decision_for_key(d: &SemanticDocument, key: &str) -> (b: bool)
    ensures
        b == decision_for_key(*d, key@),
{
    let m = &d.frontmatter;
    let t = match m.get_str("type") {
        Some(t) => str_eq(t, "decision"),
        None => false,
    };
    let k = match m.get_str("decision_key") {
        Some(k) => str_eq(k, key),
        None => false,
    };
    let l = match m.get_str("lifecycle") {
        Some(l) => str_eq(l, "active"),
        None => false,
    };
    t && k && l
}

fn matches_query(d: &SemanticDocument, q: &str) -> (b: bool)
    ensures
        b == query_matches(*d, q@),
{
    let m = &d.frontmatter;
    let by_id = match m.get_str("id") {
        Some(s) => str_eq(s, q),
        None => false,
    };
    let by_key = match m.get_str("decision_key") {
        Some(s) => str_eq(s, q),
        None => false,
    };
    let qc = str_chars(q);
    let ql = lower_chars(qc.as_slice());
    let by_title = match m.get_str("title") {
        Some(t) => {
            let tc = str_chars(t);
            let tl = lower_chars(tc.as_slice());
            chars_eq(tl.as_slice(), ql.as_slice())
        },
        None => false,
    };
    let by_description = match m.get_str("description") {
        Some(desc) => {
            let dl = to_lowercase(desc);
            let qu = to_lowercase(q);
            let dc = str_chars(dl.as_str());
            contains_str(dc.as_slice(), qu.as_str())
        },
        None => false,
    };
    by_id || by_key || by_title || by_description
}

fn retrieved_line_exec(docs: &[SemanticDocument], d: &SemanticDocument, lifecycle: &str) -> (s: String)
    ensures
        s@ == retrieved_line(docs@, *d, lifecycle@),
{
    let id = text_or_empty_of(d, "id");
    let ef = effective_freshness(id.as_str(), docs);
    let title = text_or_empty_of(d, "title");
    let mut v: Vec<char> = Vec::new();
    push_str_chars(&mut v, id.as_str());
    push_str_chars(&mut v, " [");
    push_str_chars(&mut v, lifecycle);
    push_str_chars(&mut v, "; effective_freshness=");
    push_str_chars(&mut v, ef.as_str());
    push_str_chars(&mut v, "] ");
    push_str_chars(&mut v, title.as_str());
    string_from_chars(&v)
}

/// Answers `retrieve`: the lines it prints, or the error it stops with.
pub fn retrieve(args: &[String], documents: &[SemanticDocument]) -> (r: Result<Vec<String>, String>)
    ensures
        match r {
            Ok(lines) => retrieve_report(views(args@), documents@) == Ok::<Seq<Seq<char>>, Seq<char>>(
                lines@.map_values(|l: String| l@),
            ),
            Err(e) => retrieve_report(views(args@), documents@) == Err::<Seq<Seq<char>>, Seq<char>>(e@),
        },
{
    match option_value(args, "--decision-key") {
        Err(e) => return Err(e),
        Ok(Some(key)) => {
            let ghost f = decision_filter(key@);
            let mut found: Vec<usize> = Vec::new();
            let mut k: usize = 0;
            while k < documents.len()
                invariant
                    f == decision_filter(key@),
                    k <= documents.len(),
                    found@.len() == keyed_matches(documents@, f, k as int).len(),
                    forall|j: int| 0 <= j < found.len() ==> #[trigger] found@[j] as int == keyed_matches(documents@, f, k as int)[j].2,
                    forall|j: int| 0 <= j < found.len() ==> #[trigger] found@[j] < documents.len(),
                decreases documents.len() - k,
            {
                if is_decision_for_key(&documents[k], key.as_str()) {
                    found.push(k);
                }
                k = k + 1;
            }
            let mut lines: Vec<String> = Vec::new();
            let ghost km = keyed_matches(documents@, f, documents.len() as int);
            if found.len() == 0 {
                lines.push(concat2("No active Decision for decision_key ", key.as_str()));
                assert(lines@.map_values(|l: String| l@) =~= seq!["No active Decision for decision_key "@ + key@]);
            } else if found.len() == 1 {
                assert(found@[0] as int == km[0].2);
                lines.push(retrieved_line_exec(documents, &documents[found[0]], "active"));
                assert(lines@.map_values(|l: String| l@) =~= seq![retrieved_line(documents@, documents@[km[0].2], "active"@)]);
            } else {
                lines.push(concat2("Structural error: multiple active Decisions for decision_key ", key.as_str()));
                assert(lines@.map_values(|l: String| l@) =~= seq!["Structural error: multiple active Decisions for decision_key "@ + key@]);
            }
            return Ok(lines);
        },
        Ok(None) => {},
    }
    let by_id = match option_value(args, "--id") {
        Err(e) => return Err(e),
        Ok(v) => v,
    };
    let by_query = match option_value(args, "--query") {
        Err(e) => return Err(e),
        Ok(v) => v,
    };
    let query = match by_id {
        Some(i) => i,
        None => match by_query {
            Some(q) => q,
            None => return Err("retrieve requires --id, --decision-key, or --query".to_owned()),
        },
    };
    let ghost f = query_filter(query@);
    let mut sorted: Vec<(String, String, usize)> = Vec::new();
    let mut k: usize = 0;
    while k < documents.len()
        invariant
            f == query_filter(query@),
            k <= documents.len(),
            keyed_views(sorted@) == keyed_sort(keyed_matches(documents@, f, k as int)),
            forall|j: int| 0 <= j < sorted.len() ==> #[trigger] sorted@[j].2 < k,
        decreases documents.len() - k,
    {
        let d = &documents[k];
        if matches_query(d, query.as_str()) {
            let t = text_or_empty_of(d, "type");
            let id = text_or_empty_of(d, "id");
            let ghost before = keyed_views(sorted@);
            keyed_insert_exec(&mut sorted, (t, id, k));
            proof {
                let prev = keyed_matches(documents@, f, k as int);
                let e = (text_or_empty(d.frontmatter, "type"@), text_or_empty(d.frontmatter, "id"@), k as int);
                assert(keyed_matches(documents@, f, k + 1) == prev.push(e));
                assert(prev.push(e).drop_last() =~= prev);
                assert(keyed_sort(prev.push(e)) == keyed_insert(keyed_sort(prev), e));
                assert forall|j: int| 0 <= j < sorted.len() implies #[trigger] sorted@[j].2 < k + 1 by {
                    assert(keyed_views(sorted@)[j].2 == sorted@[j].2 as int);
                    lemma_keyed_insert_members(before, e, j);
                }
            }
        }
        k = k + 1;
    }
    let mut lines: Vec<String> = Vec::new();
    if sorted.len() == 0 {
        lines.push(concat2("No OKF match for ", query.as_str()));
        assert(lines@.map_values(|l: String| l@) =~= seq!["No OKF match for "@ + query@]);
        return Ok(lines);
    }
    let ghost sv = keyed_views(sorted@);
    let mut q: usize = 0;
    while q < sorted.len()
        invariant
            sv == keyed_views(sorted@),
            q <= sorted.len(),
            forall|j: int| 0 <= j < sorted.len() ==> #[trigger] sorted@[j].2 < documents.len(),
            lines@.map_values(|l: String| l@) == sv.take(q as int).map_values(|e: (Seq<char>, Seq<char>, int)| retrieved_line(
                documents@,
                documents@[e.2],
                text_or_empty(documents@[e.2].frontmatter, "lifecycle"@),
            )),
        decreases sorted.len() - q,
    {
        let idx = sorted[q].2;
        assert(sv[q as int].2 == idx as int);
        let d = &documents[idx];
        let lifecycle = text_or_empty_of(d, "lifecycle");
        let line = retrieved_line_exec(documents, d, lifecycle.as_str());
        let ghost before = lines@.map_values(|l: String| l@);
        assert(*d == documents@[idx as int]);
        lines.push(line);
        assert(sv.take(q + 1) =~= sv.take(q as int).push(sv[q as int]));
        assert(lines@.map_values(|l: String| l@) =~= before.push(retrieved_line(
            documents@,
            documents@[sv[q as int].2],
            text_or_empty(documents@[sv[q as int].2].frontmatter, "lifecycle"@),
        )));
        assert(lines@.map_values(|l: String| l@) =~= sv.take(q + 1).map_values(|e: (Seq<char>, Seq<char>, int)| retrieved_line(
            documents@,
            documents@[e.2],
            text_or_empty(documents@[e.2].frontmatter, "lifecycle"@),
        )));
        q = q + 1;
    }
    assert(sv.take(sorted.len() as int) =~= sv);
    Ok(lines)
}

/// Every entry after an insertion was there before or is the new one.
pub(crate) proof fn lemma_keyed_insert_members(s: Seq<(Seq<char>, Seq<char>, int)>, e: (Seq<char>, Seq<char>, int), j: int)
    requires
        0 <= j < keyed_insert(s, e).len(),
    ensures
        keyed_insert(s, e).len() == s.len() + 1,
        keyed_insert(s, e)[j] == e || exists|i: int| 0 <= i < s.len() && #[trigger] s[i] == keyed_insert(s, e)[j],
    decreases s.len(),
{
    lemma_keyed_insert_len(s, e);
    if s.len() > 0 && !pair_less(e.0, e.1, s[0].0, s[0].1) {
        if j > 0 {
            lemma_keyed_insert_members(s.drop_first(), e, j - 1);
            if keyed_insert(s, e)[j] != e {
                let i = choose|i: int| 0 <= i < s.drop_first().len() && #[trigger] s.drop_first()[i] == keyed_insert(s.drop_first(), e)[j - 1];
                assert(s[i + 1] == keyed_insert(s, e)[j]);
            }
        } else {
            assert(s[0] == keyed_insert(s, e)[0]);
        }
    } else if s.len() > 0 {
        if j > 0 {
            assert(s[j - 1] == keyed_insert(s, e)[j]);
        }
    }
}

/// An insertion adds one entry.
/// Sorting keeps every entry's index in `0..n` when all were there.
pub(crate) proof fn lemma_keyed_sort_indices(s: Seq<(Seq<char>, Seq<char>, int)>, n: int)
    requires
        forall|j: int| 0 <= j < s.len() ==> 0 <= #[trigger] s[j].2 < n,
    ensures
        forall|j: int| 0 <= j < keyed_sort(s).len() ==> 0 <= #[trigger] keyed_sort(s)[j].2 < n,
    decreases s.len(),
{
    if s.len() > 0 {
        let init = s.drop_last();
        assert forall|j: int| 0 <= j < init.len() implies 0 <= #[trigger] init[j].2 < n by {
            assert(init[j] == s[j]);
        }
        lemma_keyed_sort_indices(init, n);
        let sorted = keyed_sort(init);
        assert(s.last() == s[s.len() - 1]);
        assert forall|j: int| 0 <= j < keyed_sort(s).len() implies 0 <= #[trigger] keyed_sort(s)[j].2 < n by {
            lemma_keyed_insert_members(sorted, s.last(), j);
        }
    }
}

pub(crate) proof fn lemma_keyed_insert_len(s: Seq<(Seq<char>, Seq<char>, int)>, e: (Seq<char>, Seq<char>, int))
    ensures
        keyed_insert(s, e).len() == s.len() + 1,
    decreases s.len(),
{
    if s.len() > 0 && !pair_less(e.0, e.1, s[0].0, s[0].1) {
        lemma_keyed_insert_len(s.drop_first(), e);
    }
}

/// A review condition: a draft object, or an object whose effective
/// freshness is stale or unknown.
pub struct ReviewItem {
    pub kind: String,
    pub id: String,
    pub effective: Option<String>,
}

/// The effective freshness of a document.
pub open spec fn effective_of(docs: Seq<SemanticDocument>, d: SemanticDocument) -> Seq<char> {
    freshness_of(docs, text_or_empty(d.frontmatter, "id"@), Set::empty()).0
}

/// The review conditions of the first `k` documents, keyed by kind and ID:
/// a draft gives a `draft` item, then a stale or unknown effective
/// freshness gives a `freshness` item.
pub open spec fn review_entries(docs: Seq<SemanticDocument>, k: int) -> Seq<(Seq<char>, Seq<char>, int)>
    decreases k,
{
    if k <= 0 {
        Seq::empty()
    } else {
        let d = docs[k - 1];
        let id = text_or_empty(d.frontmatter, "id"@);
        let eff = effective_of(docs, d);
        let with_draft = if text_or_empty(d.frontmatter, "lifecycle"@) == "draft"@ {
            review_entries(docs, k - 1).push(("draft"@, id, k - 1))
        } else {
            review_entries(docs, k - 1)
        };
        if eff == "stale"@ || eff == "unknown"@ {
            with_draft.push(("freshness"@, id, k - 1))
        } else {
            with_draft
        }
    }
}

/// The review conditions ordered by kind and then ID.
pub open spec fn review_report(docs: Seq<SemanticDocument>) -> Seq<(Seq<char>, Seq<char>, Option<Seq<char>>)> {
    keyed_sort(review_entries(docs, docs.len() as int)).map_values(|e: (Seq<char>, Seq<char>, int)| (
        e.0,
        e.1,
        if e.0 == "freshness"@ {
            Some(effective_of(docs, docs[e.2]))
        } else {
            None
        },
    ))
}

/// The view of a review item.
pub open spec fn item_view(i: ReviewItem) -> (Seq<char>, Seq<char>, Option<Seq<char>>) {
    (i.kind@, i.id@, match i.effective {
        Some(e) => Some(e@),
        None => None,
    })
}

/// The review conditions of the documents.
pub fn review_items(documents: &[SemanticDocument]) -> (items: Vec<ReviewItem>)
    ensures
        items@.map_values(|i: ReviewItem| item_view(i)) == review_report(documents@),
{
    let mut sorted: Vec<(String, String, usize)> = Vec::new();
    let mut k: usize = 0;
    while k < documents.len()
        invariant
            k <= documents.len(),
            keyed_views(sorted@) == keyed_sort(review_entries(documents@, k as int)),
            forall|j: int| 0 <= j < sorted.len() ==> #[trigger] sorted@[j].2 < k,
        decreases documents.len() - k,
    {
        let d = &documents[k];
        let id = text_or_empty_of(d, "id");
        let lifecycle = text_or_empty_of(d, "lifecycle");
        let eff = effective_freshness(id.as_str(), documents);
        let ghost e0 = review_entries(documents@, k as int);
        let ghost ed = ("draft"@, id@, k as int);
        let ghost ef = ("freshness"@, id@, k as int);
        let is_draft = str_eq(lifecycle.as_str(), "draft");
        if is_draft {
            let ghost before = keyed_views(sorted@);
            keyed_insert_exec(&mut sorted, ("draft".to_owned(), id.clone(), k));
            proof {
                assert(e0.push(ed).drop_last() =~= e0);
                assert(keyed_sort(e0.push(ed)) == keyed_insert(keyed_sort(e0), ed));
                assert forall|j: int| 0 <= j < sorted.len() implies #[trigger] sorted@[j].2 < k + 1 by {
                    assert(keyed_views(sorted@)[j].2 == sorted@[j].2 as int);
                    lemma_keyed_insert_members(before, ed, j);
                }
            }
        }
        let ghost e1 = if is_draft { e0.push(ed) } else { e0 };
        let stale_or_unknown = str_eq(eff.as_str(), "stale") || str_eq(eff.as_str(), "unknown");
        if stale_or_unknown {
            let ghost before = keyed_views(sorted@);
            keyed_insert_exec(&mut sorted, ("freshness".to_owned(), id, k));
            proof {
                assert(e1.push(ef).drop_last() =~= e1);
                assert(keyed_sort(e1.push(ef)) == keyed_insert(keyed_sort(e1), ef));
                assert forall|j: int| 0 <= j < sorted.len() implies #[trigger] sorted@[j].2 < k + 1 by {
                    assert(keyed_views(sorted@)[j].2 == sorted@[j].2 as int);
                    lemma_keyed_insert_members(before, ef, j);
                }
            }
        }
        assert(review_entries(documents@, k + 1) == if stale_or_unknown { e1.push(ef) } else { e1 });
        k = k + 1;
    }
    let ghost sv = keyed_views(sorted@);
    let mut items: Vec<ReviewItem> = Vec::new();
    let mut q: usize = 0;
    while q < sorted.len()
        invariant
            sv == keyed_views(sorted@),
            q <= sorted.len(),
            forall|j: int| 0 <= j < sorted.len() ==> #[trigger] sorted@[j].2 < documents.len(),
            items@.map_values(|i: ReviewItem| item_view(i)) == sv.take(q as int).map_values(
                |e: (Seq<char>, Seq<char>, int)| (
                    e.0,
                    e.1,
                    if e.0 == "freshness"@ {
                        Some(effective_of(documents@, documents@[e.2]))
                    } else {
                        None
                    },
                ),
            ),
        decreases sorted.len() - q,
    {
        let kind = sorted[q].0.clone();
        let id = sorted[q].1.clone();
        let idx = sorted[q].2;
        assert(sv[q as int] == (kind@, id@, idx as int));
        let effective = if str_eq(kind.as_str(), "freshness") {
            let d = &documents[idx];
            let did = text_or_empty_of(d, "id");
            Some(effective_freshness(did.as_str(), documents))
        } else {
            None
        };
        let ghost before = items@.map_values(|i: ReviewItem| item_view(i));
        let item = ReviewItem { kind, id, effective };
        let ghost new_view = item_view(item);
        assert(new_view == (
            sv[q as int].0,
            sv[q as int].1,
            if sv[q as int].0 == "freshness"@ {
                Some(effective_of(documents@, documents@[sv[q as int].2]))
            } else {
                None
            },
        ));
        items.push(item);
        assert(items@.map_values(|i: ReviewItem| item_view(i)) =~= before.push(new_view));
        assert(sv.take(q + 1) =~= sv.take(q as int).push(sv[q as int]));
        assert(items@.map_values(|i: ReviewItem| item_view(i)) =~= sv.take(q + 1).map_values(
            |e: (Seq<char>, Seq<char>, int)| (
                e.0,
                e.1,
                if e.0 == "freshness"@ {
                    Some(effective_of(documents@, documents@[e.2]))
                } else {
                    None
                },
            ),
        ));
        q = q + 1;
    }
    assert(sv.take(sorted.len() as int) =~= sv);
    items
}

/// The line `review` prints for a condition.
pub open spec fn review_line(kind: Seq<char>, id: Seq<char>) -> Seq<char> {
    if kind == "draft"@ {
        "NOTICE OKF-N001 "@ + id + ": review condition"@
    } else {
        "WARNING OKF-W003 "@ + id + ": review condition"@
    }
}

/// The lines `review` prints.
pub open spec fn review_output(items: Seq<(Seq<char>, Seq<char>, Option<Seq<char>>)>) -> Seq<Seq<char>> {
    if items.len() == 0 {
        seq!["OKF: no review conditions"@]
    } else {
        items.map_values(|i: (Seq<char>, Seq<char>, Option<Seq<char>>)| review_line(i.0, i.1))
    }
}

/// The lines that `review` prints for the conditions.
pub fn review_lines(items: &[ReviewItem]) -> (lines: Vec<String>)
    ensures
        lines@.map_values(|l: String| l@) == review_output(items@.map_values(|i: ReviewItem| item_view(i))),
{
    let ghost iv = items@.map_values(|i: ReviewItem| item_view(i));
    let mut lines: Vec<String> = Vec::new();
    if items.len() == 0 {
        lines.push("OKF: no review conditions".to_owned());
        assert(lines@.map_values(|l: String| l@) =~= seq!["OKF: no review conditions"@]);
        return lines;
    }
    let mut q: usize = 0;
    while q < items.len()
        invariant
            iv == items@.map_values(|i: ReviewItem| item_view(i)),
            q <= items.len(),
            lines@.map_values(|l: String| l@) == iv.take(q as int).map_values(
                |i: (Seq<char>, Seq<char>, Option<Seq<char>>)| review_line(i.0, i.1),
            ),
        decreases items.len() - q,
    {
        let it = &items[q];
        assert(iv[q as int].0 == it.kind@ && iv[q as int].1 == it.id@);
        let line = if str_eq(it.kind.as_str(), "draft") {
            crate::text::concat3("NOTICE OKF-N001 ", it.id.as_str(), ": review condition")
        } else {
            crate::text::concat3("WARNING OKF-W003 ", it.id.as_str(), ": review condition")
        };
        let ghost before = lines@.map_values(|l: String| l@);
        assert(line@ == review_line(iv[q as int].0, iv[q as int].1));
        lines.push(line);
        assert(lines@.map_values(|l: String| l@) =~= before.push(review_line(iv[q as int].0, iv[q as int].1)));
        assert(iv.take(q + 1) =~= iv.take(q as int).push(iv[q as int]));
        assert(lines@.map_values(|l: String| l@) =~= iv.take(q + 1).map_values(
            |i: (Seq<char>, Seq<char>, Option<Seq<char>>)| review_line(i.0, i.1),
        ));
        q = q + 1;
    }
    assert(iv.take(items.len() as int) =~= iv);
    lines
}

} // verus!
