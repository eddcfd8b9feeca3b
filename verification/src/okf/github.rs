//! The content hashes of remote GitHub sources: an issue is reduced to the
//! fields that carry meaning (transport details such as URLs left out), with
//! its labels, assignees and comments in a stable order.

use vstd::prelude::*;

use crate::okf::canonical::{canonical, canonical_json, joined, json_string, push_json_string};
use crate::okf::generated::lossless_or_null;
use crate::okf::hash::{hash_bytes, hash_of};
use crate::okf::views::{keyed_insert_exec, keyed_sort, keyed_views, lemma_keyed_sort_indices};
use crate::okf::yaml::{field, items, text, Yaml};
use crate::text::{concat3, push_str_chars, string_from_chars};
use vstd::utf8::encode_utf8;

verus! {

/// The value under `key` of a value under `outer` (absent when either is).
pub open spec fn nested(v: Option<Yaml>, key: Seq<char>) -> Option<Yaml> {
    match v {
        Some(y) => field(y, key),
        None => None,
    }
}

/// The texts under `key` of the items that have one, in item order.
pub open spec fn item_texts(list: Seq<Yaml>, key: Seq<char>, k: int) -> Seq<(Seq<char>, Seq<char>, int)>
    decreases k,
{
    if k <= 0 || k > list.len() {
        Seq::empty()
    } else {
        match text(field(list[k - 1], key)) {
            Some(t) => item_texts(list, key, k - 1).push((t, Seq::empty(), k - 1)),
            None => item_texts(list, key, k - 1),
        }
    }
}

/// The texts under `key` of the items of a collection, sorted; or the
/// error that the collection is missing.
pub open spec fn sorted_texts(v: Option<Yaml>, key: Seq<char>) -> Result<Seq<Seq<char>>, Seq<char>> {
    match items(v) {
        None => Err("GitHub response is missing "@ + key + " collection"@),
        Some(list) => Ok(
            keyed_sort(item_texts(list, key, list.len() as int)).map_values(|e: (Seq<char>, Seq<char>, int)| e.0),
        ),
    }
}

/// A JSON list of strings.
pub open spec fn string_list(v: Seq<Seq<char>>) -> Seq<char> {
    seq!['['] + joined(v.map_values(|s: Seq<char>| json_string(s))) + seq![']']
}

/// The JSON text of a comment reduced to its author, body, date and ID.
pub open spec fn comment_text(c: Yaml) -> Seq<char> {
    "{\"author\":"@ + lossless_or_null(nested(field(c, "author"@), "login"@)) + ",\"body\":"@ + lossless_or_null(
        field(c, "body"@),
    ) + ",\"created_at\":"@ + lossless_or_null(field(c, "createdAt"@)) + ",\"id\":"@ + lossless_or_null(field(c, "id"@))
        + "}"@
}

/// The sort key of a comment: its ID when that is a string.
pub open spec fn comment_key(c: Yaml) -> Seq<char> {
    match field(c, "id"@) {
        Some(Yaml::Str(s)) => s@,
        _ => Seq::empty(),
    }
}

/// The payload that an issue's content hash covers, or why the response
/// cannot give one.
pub open spec fn issue_payload(repository: Seq<char>, issue: Yaml) -> Result<Seq<char>, Seq<char>> {
    match sorted_texts(field(issue, "labels"@), "name"@) {
        Err(e) => Err(e),
        Ok(labels) => match sorted_texts(field(issue, "assignees"@), "login"@) {
            Err(e) => Err(e),
            Ok(assignees) => match items(field(issue, "comments"@)) {
                None => Err("GitHub issue response is missing comments"@),
                Some(comments) => {
                    let order = keyed_sort(
                        Seq::new(comments.len(), |k: int| (comment_key(comments[k]), Seq::<char>::empty(), k)),
                    );
                    let texts = order.map_values(|e: (Seq<char>, Seq<char>, int)| comment_text(comments[e.2]));
                    Ok(
                        "{\"assignees\":"@ + string_list(assignees) + ",\"body\":"@ + lossless_or_null(field(issue, "body"@))
                            + ",\"comments\":["@ + joined(texts) + "],\"labels\":"@ + string_list(labels)
                            + ",\"milestone\":"@ + lossless_or_null(nested(field(issue, "milestone"@), "title"@))
                            + ",\"number\":"@ + lossless_or_null(field(issue, "number"@)) + ",\"repository\":"@
                            + json_string(repository) + ",\"state\":"@ + lossless_or_null(field(issue, "state"@))
                            + ",\"state_reason\":"@ + lossless_or_null(field(issue, "stateReason"@)) + ",\"title\":"@
                            + lossless_or_null(field(issue, "title"@)) + "}"@,
                    )
                },
            },
        },
    }
}

fn lossless_of(v: Option<&Yaml>) -> (s: String)
    ensures
        s@ == lossless_or_null(match v {
            Some(y) => Some(*y),
            None => None,
        }),
{
    match v {
        Some(y) => match canonical_json(y) {
            Ok(t) => t,
            Err(_) => "null".to_owned(),
        },
        None => "null".to_owned(),
    }
}

fn nested_of<'a>(v: Option<&'a Yaml>, key: &str) -> (r: Option<&'a Yaml>)
    ensures
        match r {
            Some(y) => nested(match v {
                Some(x) => Some(*x),
                None => None,
            }, key@) == Some(*y),
            None => nested(match v {
                Some(x) => Some(*x),
                None => None,
            }, key@) is None,
        },
{
    match v {
        Some(y) => y.get(key),
        None => None,
    }
}

proof fn lemma_joined_step(parts: Seq<Seq<char>>, k: int)
    requires
        0 <= k < parts.len(),
    ensures
        joined(parts.take(k + 1)) == joined(parts.take(k)) + (if k > 0 {
            seq![',']
        } else {
            Seq::empty()
        }) + parts[k],
{
    assert(parts.take(k + 1).drop_last() =~= parts.take(k));
    if k == 0 {
        assert(joined(parts.take(1)) == parts.take(1)[0]);
        assert(joined(parts.take(0)) =~= Seq::<char>::empty());
        assert(Seq::<char>::empty() + Seq::<char>::empty() + parts[0] =~= parts[0]);
    }
}

fn push_string_list(out: &mut Vec<char>, v: &Vec<(String, String, usize)>)
    ensures
        final(out)@ == old(out)@ + string_list(keyed_views(v@).map_values(|e: (Seq<char>, Seq<char>, int)| e.0)),
{
    let ghost names = keyed_views(v@).map_values(|e: (Seq<char>, Seq<char>, int)| e.0);
    let ghost parts = names.map_values(|s: Seq<char>| json_string(s));
    let ghost start = out@;
    out.push('[');
    let mut q: usize = 0;
    while q < v.len()
        invariant
            names == keyed_views(v@).map_values(|e: (Seq<char>, Seq<char>, int)| e.0),
            parts == names.map_values(|s: Seq<char>| json_string(s)),
            q <= v.len(),
            out@ == start + seq!['['] + joined(parts.take(q as int)),
        decreases v.len() - q,
    {
        proof {
            lemma_joined_step(parts, q as int);
        }
        assert(parts[q as int] == json_string(v@[q as int].0@));
        if q > 0 {
            out.push(',');
        }
        push_json_string(out, v[q].0.as_str());
        q = q + 1;
    }
    assert(parts.take(v.len() as int) =~= parts);
    out.push(']');
    assert(out@ =~= start + string_list(names));
}

fn sorted_texts_of(v: Option<&Yaml>, key: &str) -> (r: Result<Vec<(String, String, usize)>, String>)
    ensures
        match r {
            Ok(s) => sorted_texts(match v {
                Some(x) => Some(*x),
                None => None,
            }, key@) == Ok::<Seq<Seq<char>>, Seq<char>>(
                keyed_views(s@).map_values(|e: (Seq<char>, Seq<char>, int)| e.0),
            ),
            Err(e) => sorted_texts(match v {
                Some(x) => Some(*x),
                None => None,
            }, key@) == Err::<Seq<Seq<char>>, Seq<char>>(e@),
        },
{
    let list = match v {
        Some(x) => x.as_seq(),
        None => None,
    };
    let list = match list {
        Some(l) => l,
        None => {
            return Err(concat3("GitHub response is missing ", key, " collection"));
        },
    };
    let mut sorted: Vec<(String, String, usize)> = Vec::new();
    let mut k: usize = 0;
    while k < list.len()
        invariant
            k <= list.len(),
            keyed_views(sorted@) == keyed_sort(item_texts(list@, key@, k as int)),
        decreases list.len() - k,
    {
        match list[k].get_str(key) {
            Some(t) => {
                let ghost prev = item_texts(list@, key@, k as int);
                let ghost e = (t@, Seq::<char>::empty(), k as int);
                keyed_insert_exec(&mut sorted, (t.to_owned(), String::new(), k));
                assert(prev.push(e).drop_last() =~= prev);
            },
            None => {},
        }
        k = k + 1;
    }
    Ok(sorted)
}

fn comment_json(c: &Yaml) -> (s: String)
    ensures
        s@ == comment_text(*c),
{
    let mut out: Vec<char> = Vec::new();
    push_str_chars(&mut out, "{\"author\":");
    push_str_chars(&mut out, lossless_of(nested_of(c.get("author"), "login")).as_str());
    push_str_chars(&mut out, ",\"body\":");
    push_str_chars(&mut out, lossless_of(c.get("body")).as_str());
    push_str_chars(&mut out, ",\"created_at\":");
    push_str_chars(&mut out, lossless_of(c.get("createdAt")).as_str());
    push_str_chars(&mut out, ",\"id\":");
    push_str_chars(&mut out, lossless_of(c.get("id")).as_str());
    push_str_chars(&mut out, "}");
    assert(out@ =~= comment_text(*c));
    string_from_chars(&out)
}

/// The payload that an issue's content hash covers: the repository and the
/// issue's meaningful fields, as compact JSON with sorted keys.
pub fn github_issue_payload(repository: &str, issue: &Yaml) -> (r: Result<String, String>)
    ensures
        match r {
            Ok(s) => issue_payload(repository@, *issue) == Ok::<Seq<char>, Seq<char>>(s@),
            Err(e) => issue_payload(repository@, *issue) == Err::<Seq<char>, Seq<char>>(e@),
        },
{
    let labels = match sorted_texts_of(issue.get("labels"), "name") {
        Ok(l) => l,
        Err(e) => {
            return Err(e);
        },
    };
    let assignees = match sorted_texts_of(issue.get("assignees"), "login") {
        Ok(a) => a,
        Err(e) => {
            return Err(e);
        },
    };
    let comments = match issue.get("comments") {
        Some(c) => c.as_seq(),
        None => None,
    };
    let comments = match comments {
        Some(c) => c,
        None => {
            return Err("GitHub issue response is missing comments".to_owned());
        },
    };
    let ghost keys = Seq::new(comments@.len(), |k: int| (comment_key(comments@[k]), Seq::<char>::empty(), k));
    let mut order: Vec<(String, String, usize)> = Vec::new();
    let mut k: usize = 0;
    while k < comments.len()
        invariant
            k <= comments.len(),
            keys == Seq::new(comments@.len(), |k: int| (comment_key(comments@[k]), Seq::<char>::empty(), k)),
            keyed_views(order@) == keyed_sort(keys.take(k as int)),
            forall|j: int| 0 <= j < order.len() ==> #[trigger] order@[j].2 < k,
        decreases comments.len() - k,
    {
        let key = match comments[k].get("id") {
            Some(Yaml::Str(s)) => s.clone(),
            _ => String::new(),
        };
        let ghost before = keyed_views(order@);
        keyed_insert_exec(&mut order, (key, String::new(), k));
        proof {
            assert(keys.take(k + 1).drop_last() =~= keys.take(k as int));
            assert(keys.take(k + 1).last() == keys[k as int]);
            assert forall|j: int| 0 <= j < order.len() implies #[trigger] order@[j].2 < k + 1 by {
                crate::okf::views::lemma_keyed_insert_members(before, keys[k as int], j);
                assert(keyed_views(order@)[j].2 == order@[j].2 as int);
            }
        }
        k = k + 1;
    }
    assert(keys.take(comments.len() as int) =~= keys);
    let ghost ord = keyed_views(order@);
    let ghost texts = ord.map_values(|e: (Seq<char>, Seq<char>, int)| comment_text(comments@[e.2]));
    let mut out: Vec<char> = Vec::new();
    push_str_chars(&mut out, "{\"assignees\":");
    push_string_list(&mut out, &assignees);
    push_str_chars(&mut out, ",\"body\":");
    push_str_chars(&mut out, lossless_of(issue.get("body")).as_str());
    push_str_chars(&mut out, ",\"comments\":[");
    let ghost head = out@;
    let mut q: usize = 0;
    while q < order.len()
        invariant
            ord == keyed_views(order@),
            texts == ord.map_values(|e: (Seq<char>, Seq<char>, int)| comment_text(comments@[e.2])),
            forall|j: int| 0 <= j < order.len() ==> #[trigger] order@[j].2 < comments.len(),
            q <= order.len(),
            out@ == head + joined(texts.take(q as int)),
        decreases order.len() - q,
    {
        let idx = order[q].2;
        assert(ord[q as int].2 == idx as int);
        proof {
            lemma_joined_step(texts, q as int);
        }
        let t = comment_json(&comments[idx]);
        if q > 0 {
            out.push(',');
        }
        push_str_chars(&mut out, t.as_str());
        assert(out@ =~= head + joined(texts.take(q + 1)));
        q = q + 1;
    }
    assert(texts.take(order.len() as int) =~= texts);
    push_str_chars(&mut out, "],\"labels\":");
    push_string_list(&mut out, &labels);
    push_str_chars(&mut out, ",\"milestone\":");
    push_str_chars(&mut out, lossless_of(nested_of(issue.get("milestone"), "title")).as_str());
    push_str_chars(&mut out, ",\"number\":");
    push_str_chars(&mut out, lossless_of(issue.get("number")).as_str());
    push_str_chars(&mut out, ",\"repository\":");
    push_json_string(&mut out, repository);
    push_str_chars(&mut out, ",\"state\":");
    push_str_chars(&mut out, lossless_of(issue.get("state")).as_str());
    push_str_chars(&mut out, ",\"state_reason\":");
    push_str_chars(&mut out, lossless_of(issue.get("stateReason")).as_str());
    push_str_chars(&mut out, ",\"title\":");
    push_str_chars(&mut out, lossless_of(issue.get("title")).as_str());
    push_str_chars(&mut out, "}");
    assert(out@ =~= issue_payload(repository@, *issue)->Ok_0);
    Ok(string_from_chars(&out))
}

/// The content hash of a GitHub issue response.
pub fn github_issue_hash(repository: &str, issue: &Yaml) -> (r: Result<String, String>)
    ensures
        match r {
            Ok(s) => issue_payload(repository@, *issue) is Ok && s@ == hash_of(
                encode_utf8(issue_payload(repository@, *issue)->Ok_0),
            ),
            Err(e) => issue_payload(repository@, *issue) == Err::<Seq<char>, Seq<char>>(e@),
        },
{
    match github_issue_payload(repository, issue) {
        Ok(p) => Ok(hash_bytes(p.as_str().as_bytes())),
        Err(e) => Err(e),
    }
}

/// The content hash of a GitHub pull request response: the hash of its
/// compact JSON.
pub fn github_pull_request_hash(value: &Yaml) -> (r: Result<String, String>)
    ensures
        match r {
            Ok(s) => canonical(*value) is Ok && s@ == hash_of(encode_utf8(canonical(*value)->Ok_0)),
            Err(e) => canonical(*value) == Err::<Seq<char>, Seq<char>>(e@),
        },
{
    match canonical_json(value) {
        Ok(t) => Ok(hash_bytes(t.as_str().as_bytes())),
        Err(e) => Err(e),
    }
}

/// Two comments reduce to the same ID, author login, body and date.
pub open spec fn same_comment(c1: Yaml, c2: Yaml) -> bool {
    comment_key(c1) == comment_key(c2) && comment_text(c1) == comment_text(c2)
}

/// Two issue responses agree on everything an issue's payload covers: the
/// sorted label names, the sorted assignee logins, the comments one for
/// one, and the body, milestone title, number, state, state reason and
/// title.
pub open spec fn issues_agree(i1: Yaml, i2: Yaml) -> bool {
    &&& sorted_texts(field(i1, "labels"@), "name"@) == sorted_texts(field(i2, "labels"@), "name"@)
    &&& sorted_texts(field(i1, "assignees"@), "login"@) == sorted_texts(field(i2, "assignees"@), "login"@)
    &&& (items(field(i1, "comments"@)) is Some <==> items(field(i2, "comments"@)) is Some)
    &&& items(field(i1, "comments"@)) is Some ==> {
        let c1 = items(field(i1, "comments"@))->Some_0;
        let c2 = items(field(i2, "comments"@))->Some_0;
        &&& c1.len() == c2.len()
        &&& forall|k: int| 0 <= k < c1.len() ==> same_comment(#[trigger] c1[k], c2[k])
    }
    &&& lossless_or_null(field(i1, "body"@)) == lossless_or_null(field(i2, "body"@))
    &&& lossless_or_null(nested(field(i1, "milestone"@), "title"@)) == lossless_or_null(
        nested(field(i2, "milestone"@), "title"@),
    )
    &&& lossless_or_null(field(i1, "number"@)) == lossless_or_null(field(i2, "number"@))
    &&& lossless_or_null(field(i1, "state"@)) == lossless_or_null(field(i2, "state"@))
    &&& lossless_or_null(field(i1, "stateReason"@)) == lossless_or_null(field(i2, "stateReason"@))
    &&& lossless_or_null(field(i1, "title"@)) == lossless_or_null(field(i2, "title"@))
}

/// The labels, assignees and comments of an issue response are lists.
pub open spec fn has_issue_lists(issue: Yaml) -> bool {
    &&& items(field(issue, "labels"@)) is Some
    &&& items(field(issue, "assignees"@)) is Some
    &&& items(field(issue, "comments"@)) is Some
}

/// An issue's payload, and so its content hash, ignores every field it does
/// not cover: two responses that agree on the covered fields (label
/// descriptions and URLs, say, may differ) give the same payload, or the
/// same error; and both give a payload when their labels, assignees and
/// comments are lists.
pub proof fn law_issue_payload_ignores_uncovered_fields(repository: Seq<char>, i1: Yaml, i2: Yaml)
    requires
        issues_agree(i1, i2),
    ensures
        issue_payload(repository, i1) == issue_payload(repository, i2),
        issue_payload(repository, i1) is Ok <==> has_issue_lists(i1),
        issue_payload(repository, i2) is Ok <==> has_issue_lists(i2),
{
    if let Some(c1) = items(field(i1, "comments"@)) {
        let c2 = items(field(i2, "comments"@))->Some_0;
        let keys1 = Seq::new(c1.len(), |k: int| (comment_key(c1[k]), Seq::<char>::empty(), k));
        let keys2 = Seq::new(c2.len(), |k: int| (comment_key(c2[k]), Seq::<char>::empty(), k));
        assert forall|k: int| 0 <= k < c1.len() implies #[trigger] keys1[k] == keys2[k] by {
            assert(same_comment(c1[k], c2[k]));
        }
        assert(keys1 =~= keys2);
        let order = keyed_sort(keys1);
        lemma_keyed_sort_indices(keys1, c1.len() as int);
        let t1 = order.map_values(|e: (Seq<char>, Seq<char>, int)| comment_text(c1[e.2]));
        let t2 = order.map_values(|e: (Seq<char>, Seq<char>, int)| comment_text(c2[e.2]));
        assert forall|j: int| 0 <= j < order.len() implies #[trigger] t1[j] == t2[j] by {
            assert(0 <= order[j].2 < c1.len());
            assert(same_comment(c1[order[j].2], c2[order[j].2]));
        }
        assert(t1 =~= t2);
    }
}

} // verus!
