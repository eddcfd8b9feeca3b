//! Hash projections: the front matter of an object, or a claim, with its
//! administrative fields taken out, rendered as canonical JSON, and the
//! semantic hashes computed over them.
//!
//! A field is taken out the way a YAML mapping removes a key: the last
//! entry moves into its place. The order only decides which error is
//! reported first, since the JSON text sorts the keys.

use vstd::prelude::*;

use crate::okf::canonical::{
    canonical, canonical_json, insert_member, joined, mapping_text, member_insert, members_text,
    members_view, text_result,
};
use crate::okf::body::{law_normalization_is_idempotent, normalized};
use crate::okf::hash::{claim_hash_of, hash_of, object_hash_of, object_payload};
use crate::okf::registries::text_less;
use crate::okf::yaml::{key_is, Yaml};
use crate::text::{push_str_chars, str_eq, string_from_chars};
use vstd::utf8::encode_utf8;

verus! {

/// The position in `ix` of the first entry whose key is the string `key`.
pub open spec fn key_position(es: Seq<(Yaml, Yaml)>, ix: Seq<usize>, key: Seq<char>) -> Option<int>
    decreases ix.len(),
{
    if ix.len() == 0 {
        None
    } else if key_is(es[ix[0] as int].0, key) {
        Some(0)
    } else {
        match key_position(es, ix.drop_first(), key) {
            Some(p) => Some(p + 1),
            None => None,
        }
    }
}

/// Removes the entry with key `key` from the entries listed by `ix`; the
/// last one takes its place.
pub open spec fn swap_removed(es: Seq<(Yaml, Yaml)>, ix: Seq<usize>, key: Seq<char>) -> Seq<usize> {
    match key_position(es, ix, key) {
        Some(p) => ix.update(p, ix.last()).drop_last(),
        None => ix,
    }
}

/// Removes the keys one after the other.
pub open spec fn swap_removed_all(es: Seq<(Yaml, Yaml)>, ix: Seq<usize>, keys: Seq<Seq<char>>) -> Seq<usize>
    decreases keys.len(),
{
    if keys.len() == 0 {
        ix
    } else {
        swap_removed_all(es, swap_removed(es, ix, keys[0]), keys.drop_first())
    }
}

/// The positions `0..n` in order.
pub open spec fn all_positions(n: nat) -> Seq<usize> {
    Seq::new(n, |i: int| i as usize)
}

/// The fields an object's semantic hash leaves out, in the order removed.
pub open spec fn object_keys() -> Seq<Seq<char>> {
    seq!["created_at"@, "updated_at"@, "generated"@, "verified"@, "semantic_hash"@, "lifecycle"@, "freshness"@]
}

/// The fields a claim's semantic hash leaves out, in the order removed.
pub open spec fn claim_keys() -> Seq<Seq<char>> {
    seq!["semantic_hash"@, "lifecycle"@, "freshness"@]
}

/// Values rendered as they are.
pub open spec fn plain_render() -> spec_fn(int, Yaml) -> Result<Seq<char>, Seq<char>> {
    |p: int, v: Yaml| canonical(v)
}

/// How the value at position `p` of a projection is rendered: the claims
/// list at `claims` has its claims projected, every other value is
/// rendered as it is.
pub open spec fn value_render(claims: Option<int>) -> spec_fn(int, Yaml) -> Result<Seq<char>, Seq<char>> {
    |p: int, v: Yaml| if claims == Some(p) {
        claims_list_text(v)
    } else {
        canonical(v)
    }
}

/// The sorted members of the entries at positions `ix[0..k]`, or the first
/// error.
pub open spec fn members_at(
    es: Seq<(Yaml, Yaml)>,
    ix: Seq<usize>,
    k: int,
    render: spec_fn(int, Yaml) -> Result<Seq<char>, Seq<char>>,
) -> Result<Seq<(Seq<char>, Seq<char>)>, Seq<char>>
    decreases k,
{
    if k <= 0 || k > ix.len() {
        Ok(Seq::empty())
    } else {
        match members_at(es, ix, k - 1, render) {
            Err(e) => Err(e),
            Ok(prev) => match es[ix[k - 1] as int].0 {
                Yaml::Str(key) => match render(k - 1, es[ix[k - 1] as int].1) {
                    Err(e) => Err(e),
                    Ok(t) => Ok(member_insert(prev, key@, t)),
                },
                _ => Err("semantic YAML mapping keys must be strings"@),
            },
        }
    }
}

/// The canonical JSON text of a claim with its administrative fields taken
/// out; a value that is not a mapping is rendered as it is.
pub open spec fn claim_json(c: Yaml) -> Result<Seq<char>, Seq<char>> {
    match c {
        Yaml::Mapping(es) => {
            let ix = swap_removed_all(es@, all_positions(es@.len()), claim_keys());
            match members_at(es@, ix, ix.len() as int, plain_render()) {
                Ok(ms) => Ok(mapping_text(ms)),
                Err(e) => Err(e),
            }
        },
        _ => canonical(c),
    }
}

/// The projected texts of the first `k` claims, or the first error.
pub open spec fn claim_texts(items: Seq<Yaml>, k: int) -> Result<Seq<Seq<char>>, Seq<char>>
    decreases k,
{
    if k <= 0 || k > items.len() {
        Ok(Seq::empty())
    } else {
        match claim_texts(items, k - 1) {
            Err(e) => Err(e),
            Ok(prev) => match claim_json(items[k - 1]) {
                Err(e) => Err(e),
                Ok(t) => Ok(prev.push(t)),
            },
        }
    }
}

/// The text of an object's `claims` value: a sequence has each claim
/// projected, anything else is rendered as it is.
pub open spec fn claims_list_text(v: Yaml) -> Result<Seq<char>, Seq<char>> {
    match v {
        Yaml::List(items) => match claim_texts(items@, items@.len() as int) {
            Ok(parts) => Ok(seq!['['] + joined(parts) + seq![']']),
            Err(e) => Err(e),
        },
        _ => canonical(v),
    }
}

/// The canonical JSON text of an object's front matter with its
/// administrative fields, and those of its claims, taken out.
pub open spec fn object_json(m: Yaml) -> Result<Seq<char>, Seq<char>> {
    match m {
        Yaml::Mapping(es) => object_json_entries(es@),
        _ => canonical(m),
    }
}

/// The canonical JSON text of the projection of front-matter entries.
pub open spec fn object_json_entries(es: Seq<(Yaml, Yaml)>) -> Result<Seq<char>, Seq<char>> {
    let ix = swap_removed_all(es, all_positions(es.len()), object_keys());
    match members_at(es, ix, ix.len() as int, value_render(key_position(es, ix, "claims"@))) {
        Ok(ms) => Ok(mapping_text(ms)),
        Err(e) => Err(e),
    }
}

/// The semantic hash over a projection text and a body.
pub open spec fn framed_hash(json: Result<Seq<char>, Seq<char>>, body: Seq<char>) -> Result<Seq<char>, Seq<char>> {
    match json {
        Ok(j) => Ok(hash_of(encode_utf8(object_payload(j, body)))),
        Err(e) => Err(e),
    }
}

/// The semantic hash of an object: the hash of its projected front matter
/// framed with its normalized body.
pub open spec fn object_hash_spec(m: Yaml, body: Seq<char>) -> Result<Seq<char>, Seq<char>> {
    framed_hash(object_json(m), body)
}

/// The semantic hash of a claim: the hash of its projection.
pub open spec fn claim_hash_spec(c: Yaml) -> Result<Seq<char>, Seq<char>> {
    match claim_json(c) {
        Ok(j) => Ok(hash_of(encode_utf8(j))),
        Err(e) => Err(e),
    }
}

/// Every position listed is an entry.
pub open spec fn in_range(ix: Seq<usize>, n: int) -> bool {
    forall|p: int| 0 <= p < ix.len() ==> #[trigger] ix[p] < n
}

fn all_positions_exec(n: usize) -> (v: Vec<usize>)
    ensures
        v@ == all_positions(n as nat),
{
    let mut v: Vec<usize> = Vec::new();
    let mut i: usize = 0;
    while i < n
        invariant
            i <= n,
            v@ =~= all_positions(i as nat),
        decreases n - i,
    {
        v.push(i);
        i = i + 1;
    }
    v
}

fn key_is_exec(k: &Yaml, key: &str) -> (b: bool)
    ensures
        b == key_is(*k, key@),
{
    match k {
        Yaml::Str(s) => str_eq(s.as_str(), key),
        _ => false,
    }
}

proof fn lemma_key_position(es: Seq<(Yaml, Yaml)>, ix: Seq<usize>, key: Seq<char>, p: int)
    requires
        0 <= p <= ix.len(),
        forall|j: int| 0 <= j < p ==> !key_is(es[#[trigger] ix[j] as int].0, key),
    ensures
        p < ix.len() && key_is(es[ix[p] as int].0, key) ==> key_position(es, ix, key) == Some(p),
        p == ix.len() ==> key_position(es, ix, key) is None,
    decreases p,
{
    if p > 0 {
        let rest = ix.drop_first();
        assert forall|j: int| 0 <= j < p - 1 implies !key_is(es[#[trigger] rest[j] as int].0, key) by {
            assert(rest[j] == ix[j + 1]);
        }
        if p < ix.len() {
            assert(rest[p - 1] == ix[p]);
        }
        lemma_key_position(es, rest, key, p - 1);
    }
}

fn find_key(es: &Vec<(Yaml, Yaml)>, ix: &Vec<usize>, key: &str) -> (r: Option<usize>)
    requires
        in_range(ix@, es.len() as int),
    ensures
        match r {
            Some(p) => key_position(es@, ix@, key@) == Some(p as int) && p < ix.len(),
            None => key_position(es@, ix@, key@) is None,
        },
{
    let mut p: usize = 0;
    while p < ix.len()
        invariant
            in_range(ix@, es.len() as int),
            p <= ix.len(),
            forall|j: int| 0 <= j < p ==> !key_is(es@[#[trigger] ix@[j] as int].0, key@),
        decreases ix.len() - p,
    {
        assert(ix@[p as int] < es.len());
        if key_is_exec(&es[ix[p]].0, key) {
            proof {
                lemma_key_position(es@, ix@, key@, p as int);
            }
            return Some(p);
        }
        p = p + 1;
    }
    proof {
        lemma_key_position(es@, ix@, key@, p as int);
    }
    None
}

fn swap_remove_key(es: &Vec<(Yaml, Yaml)>, ix: &mut Vec<usize>, key: &str)
    requires
        in_range(old(ix)@, es.len() as int),
    ensures
        final(ix)@ == swap_removed(es@, old(ix)@, key@),
        in_range(final(ix)@, es.len() as int),
{
    let found = find_key(es, ix, key);
    if let Some(p) = found {
        let ghost before = ix@;
        ix.swap_remove(p);
        assert forall|q: int| 0 <= q < ix@.len() implies #[trigger] ix@[q] < es.len() by {
            assert(ix@[q] == before.update(p as int, before.last())[q]);
        }
    }
}

fn remove_keys(es: &Vec<(Yaml, Yaml)>, keys: &[&str]) -> (ix: Vec<usize>)
    ensures
        ix@ == swap_removed_all(es@, all_positions(es@.len()), keys@.map_values(|k: &str| k@)),
        in_range(ix@, es.len() as int),
{
    let ghost kv = keys@.map_values(|k: &str| k@);
    let mut ix = all_positions_exec(es.len());
    let mut i: usize = 0;
    assert(kv.skip(0) =~= kv);
    while i < keys.len()
        invariant
            kv == keys@.map_values(|k: &str| k@),
            i <= keys.len(),
            in_range(ix@, es.len() as int),
            swap_removed_all(es@, all_positions(es@.len()), kv) == swap_removed_all(es@, ix@, kv.skip(i as int)),
        decreases keys.len() - i,
    {
        let ghost before = ix@;
        swap_remove_key(es, &mut ix, keys[i]);
        assert(kv.skip(i as int)[0] == keys@[i as int]@);
        assert(kv.skip(i as int).drop_first() =~= kv.skip(i + 1));
        i = i + 1;
    }
    assert(kv.skip(keys.len() as int) =~= Seq::<Seq<char>>::empty());
    ix
}

proof fn lemma_members_err(
    es: Seq<(Yaml, Yaml)>,
    ix: Seq<usize>,
    k: int,
    n: int,
    render: spec_fn(int, Yaml) -> Result<Seq<char>, Seq<char>>,
)
    requires
        0 <= k <= n <= ix.len(),
        members_at(es, ix, k, render) is Err,
    ensures
        members_at(es, ix, n, render) == members_at(es, ix, k, render),
    decreases n - k,
{
    if n > k {
        lemma_members_err(es, ix, k, n - 1, render);
    }
}

/// The members of the entries listed by `ix`, with the claims list at
/// position `claims` projected.
fn members_of(es: &Vec<(Yaml, Yaml)>, ix: &Vec<usize>, claims: Option<usize>) -> (r: Result<Vec<(String, String)>, String>)
    requires
        in_range(ix@, es.len() as int),
    ensures
        match r {
            Ok(ms) => members_at(es@, ix@, ix@.len() as int, value_render(opt_int(claims))) == Ok::<
                Seq<(Seq<char>, Seq<char>)>,
                Seq<char>,
            >(members_view(ms@)),
            Err(e) => members_at(es@, ix@, ix@.len() as int, value_render(opt_int(claims))) == Err::<
                Seq<(Seq<char>, Seq<char>)>,
                Seq<char>,
            >(e@),
        },
{
    let ghost render = value_render(opt_int(claims));
    let mut members: Vec<(String, String)> = Vec::new();
    let mut k: usize = 0;
    while k < ix.len()
        invariant
            in_range(ix@, es.len() as int),
            render == value_render(opt_int(claims)),
            k <= ix.len(),
            members_at(es@, ix@, k as int, render) is Ok,
            members_view(members@) == members_at(es@, ix@, k as int, render)->Ok_0,
        decreases ix.len() - k,
    {
        assert(ix@[k as int] < es.len());
        let entry = &es[ix[k]];
        let key = match &entry.0 {
            Yaml::Str(s) => s.clone(),
            _ => {
                proof {
                    lemma_members_err(es@, ix@, k + 1, ix@.len() as int, render);
                }
                return Err("semantic YAML mapping keys must be strings".to_owned());
            },
        };
        let is_claims = match claims {
            Some(c) => c == k,
            None => false,
        };
        let rendered = if is_claims {
            claims_list_json(&entry.1)
        } else {
            canonical_json(&entry.1)
        };
        assert(text_result(rendered) == render(k as int, es@[ix@[k as int] as int].1));
        match rendered {
            Err(e) => {
                proof {
                    lemma_members_err(es@, ix@, k + 1, ix@.len() as int, render);
                }
                return Err(e);
            },
            Ok(t) => {
                insert_member(&mut members, key, t);
            },
        }
        k = k + 1;
    }
    Ok(members)
}

/// The members of the entries listed by `ix`, each value rendered as it is.
fn plain_members_of(es: &Vec<(Yaml, Yaml)>, ix: &Vec<usize>) -> (r: Result<Vec<(String, String)>, String>)
    requires
        in_range(ix@, es.len() as int),
    ensures
        match r {
            Ok(ms) => members_at(es@, ix@, ix@.len() as int, plain_render()) == Ok::<
                Seq<(Seq<char>, Seq<char>)>,
                Seq<char>,
            >(members_view(ms@)),
            Err(e) => members_at(es@, ix@, ix@.len() as int, plain_render()) == Err::<
                Seq<(Seq<char>, Seq<char>)>,
                Seq<char>,
            >(e@),
        },
{
    let ghost render = plain_render();
    let mut members: Vec<(String, String)> = Vec::new();
    let mut k: usize = 0;
    while k < ix.len()
        invariant
            in_range(ix@, es.len() as int),
            render == plain_render(),
            k <= ix.len(),
            members_at(es@, ix@, k as int, render) is Ok,
            members_view(members@) == members_at(es@, ix@, k as int, render)->Ok_0,
        decreases ix.len() - k,
    {
        assert(ix@[k as int] < es.len());
        let entry = &es[ix[k]];
        let key = match &entry.0 {
            Yaml::Str(s) => s.clone(),
            _ => {
                proof {
                    lemma_members_err(es@, ix@, k + 1, ix@.len() as int, render);
                }
                return Err("semantic YAML mapping keys must be strings".to_owned());
            },
        };
        let rendered = canonical_json(&entry.1);
        assert(text_result(rendered) == render(k as int, es@[ix@[k as int] as int].1));
        match rendered {
            Err(e) => {
                proof {
                    lemma_members_err(es@, ix@, k + 1, ix@.len() as int, render);
                }
                return Err(e);
            },
            Ok(t) => {
                insert_member(&mut members, key, t);
            },
        }
        k = k + 1;
    }
    Ok(members)
}

/// An optional position as an integer.
pub open spec fn opt_int(p: Option<usize>) -> Option<int> {
    match p {
        Some(i) => Some(i as int),
        None => None,
    }
}

/// The canonical JSON text of a claim's hash projection, or why it has none.
pub fn claim_json_text(c: &Yaml) -> (r: Result<String, String>)
    ensures
        text_result(r) == claim_json(*c),
{
    match c {
        Yaml::Mapping(es) => {
            let keys: [&str; 3] = ["semantic_hash", "lifecycle", "freshness"];
            assert(keys@.map_values(|k: &str| k@) =~= claim_keys());
            let ix = remove_keys(es, &keys);
            match plain_members_of(es, &ix) {
                Ok(ms) => Ok(members_text(&ms)),
                Err(e) => Err(e),
            }
        },
        _ => canonical_json(c),
    }
}

proof fn lemma_claim_texts_err(items: Seq<Yaml>, k: int, n: int)
    requires
        0 <= k <= n <= items.len(),
        claim_texts(items, k) is Err,
    ensures
        claim_texts(items, n) == claim_texts(items, k),
    decreases n - k,
{
    if n > k {
        lemma_claim_texts_err(items, k, n - 1);
    }
}

fn claims_list_json(v: &Yaml) -> (r: Result<String, String>)
    ensures
        text_result(r) == claims_list_text(*v),
{
    match v {
        Yaml::List(items) => {
            let mut out: Vec<char> = Vec::new();
            out.push('[');
            let mut i: usize = 0;
            while i < items.len()
                invariant
                    *v == Yaml::List(*items),
                    i <= items.len(),
                    claim_texts(items@, i as int) is Ok,
                    out@ == seq!['['] + joined(claim_texts(items@, i as int)->Ok_0),
                decreases items.len() - i,
            {
                let ghost prev = claim_texts(items@, i as int)->Ok_0;
                match claim_json_text(&items[i]) {
                    Err(e) => {
                        proof {
                            lemma_claim_texts_err(items@, i + 1, items@.len() as int);
                        }
                        return Err(e);
                    },
                    Ok(t) => {
                        assert(prev.push(t@).drop_last() =~= prev);
                        if i > 0 {
                            out.push(',');
                        }
                        push_str_chars(&mut out, t.as_str());
                        assert(out@ =~= seq!['['] + joined(prev.push(t@)));
                    },
                }
                i = i + 1;
            }
            out.push(']');
            assert(out@ =~= seq!['['] + joined(claim_texts(items@, items@.len() as int)->Ok_0) + seq![']']);
            Ok(string_from_chars(&out))
        },
        _ => canonical_json(v),
    }
}

/// The canonical JSON text of an object's hash projection, or why it has
/// none.
pub fn object_json_text(m: &Yaml) -> (r: Result<String, String>)
    ensures
        text_result(r) == object_json(*m),
{
    match m {
        Yaml::Mapping(es) => {
            let keys: [&str; 7] = ["created_at", "updated_at", "generated", "verified", "semantic_hash", "lifecycle", "freshness"];
            assert(keys@.map_values(|k: &str| k@) =~= object_keys());
            let ix = remove_keys(es, &keys);
            let claims = find_key(es, &ix, "claims");
            assert(opt_int(claims) == key_position(es@, ix@, "claims"@));
            match members_of(es, &ix, claims) {
                Ok(ms) => Ok(members_text(&ms)),
                Err(e) => Err(e),
            }
        },
        _ => canonical_json(m),
    }
}

/// The semantic hash of an object from its front matter and body.
pub fn object_hash(map: &Yaml, body: &str) -> (r: Result<String, String>)
    ensures
        text_result(r) == object_hash_spec(*map, body@),
{
    match object_json_text(map) {
        Ok(j) => Ok(object_hash_of(j.as_str(), body)),
        Err(e) => Err(e),
    }
}

/// The semantic hash of a claim.
pub fn claim_hash(map: &Yaml) -> (r: Result<String, String>)
    ensures
        text_result(r) == claim_hash_spec(*map),
{
    match claim_json_text(map) {
        Ok(j) => Ok(claim_hash_of(j.as_str())),
        Err(e) => Err(e),
    }
}

/// `ix` lists each position at most once.
pub open spec fn distinct(ix: Seq<usize>) -> bool {
    forall|a: int, b: int| 0 <= a < ix.len() && 0 <= b < ix.len() && a != b ==> #[trigger] ix[a] != #[trigger] ix[b]
}

/// Entry `i` is the only one with the string key `key`.
pub open spec fn only_key_at(es: Seq<(Yaml, Yaml)>, i: int, key: Seq<char>) -> bool {
    &&& 0 <= i < es.len() <= usize::MAX
    &&& key_is(es[i].0, key)
    &&& forall|j: int| 0 <= j < es.len() && j != i ==> !key_is(#[trigger] es[j].0, key)
}

proof fn lemma_key_position_found(es: Seq<(Yaml, Yaml)>, ix: Seq<usize>, key: Seq<char>)
    ensures
        key_position(es, ix, key) matches Some(p) ==> 0 <= p < ix.len() && key_is(es[ix[p] as int].0, key),
        key_position(es, ix, key) is None ==> forall|q: int| 0 <= q < ix.len() ==> !key_is(es[#[trigger] ix[q] as int].0, key),
    decreases ix.len(),
{
    if ix.len() > 0 {
        let rest = ix.drop_first();
        lemma_key_position_found(es, rest, key);
        if key_position(es, ix, key) is None {
            assert forall|q: int| 0 <= q < ix.len() implies !key_is(es[#[trigger] ix[q] as int].0, key) by {
                if q > 0 {
                    assert(ix[q] == rest[q - 1]);
                }
            }
        }
    }
}

proof fn lemma_swap_removed(es: Seq<(Yaml, Yaml)>, ix: Seq<usize>, key: Seq<char>, n: int)
    requires
        in_range(ix, n),
    ensures
        in_range(swap_removed(es, ix, key), n),
        distinct(ix) ==> distinct(swap_removed(es, ix, key)),
        forall|x: usize| swap_removed(es, ix, key).contains(x) ==> ix.contains(x),
        distinct(ix) && key_position(es, ix, key) is Some ==> !swap_removed(es, ix, key).contains(
            ix[key_position(es, ix, key)->Some_0],
        ),
{
    lemma_key_position_found(es, ix, key);
    let r = swap_removed(es, ix, key);
    if let Some(p) = key_position(es, ix, key) {
        let last = ix.len() - 1;
        assert forall|q: int| 0 <= q < r.len() implies r[q] == if q == p { ix[last] } else { ix[q] } by {}
        assert forall|q: int| 0 <= q < r.len() implies #[trigger] r[q] < n by {
            if q == p {
                assert(ix[last] < n);
            } else {
                assert(ix[q] < n);
            }
        }
        assert forall|x: usize| r.contains(x) implies ix.contains(x) by {
            let q = choose|q: int| 0 <= q < r.len() && r[q] == x;
            if q == p {
                assert(ix[last] == x);
            } else {
                assert(ix[q] == x);
            }
        }
        if distinct(ix) {
            assert forall|a: int, b: int| 0 <= a < r.len() && 0 <= b < r.len() && a != b implies #[trigger] r[a] != #[trigger] r[b] by {
                let a1 = if a == p { last } else { a };
                let b1 = if b == p { last } else { b };
                assert(r[a] == ix[a1]);
                assert(r[b] == ix[b1]);
            }
            assert forall|q: int| 0 <= q < r.len() implies r[q] != ix[p] by {
                let q1 = if q == p { last } else { q };
                assert(r[q] == ix[q1]);
            }
        }
    }
}

proof fn lemma_removed_all(es: Seq<(Yaml, Yaml)>, ix: Seq<usize>, keys: Seq<Seq<char>>, n: int)
    requires
        in_range(ix, n),
    ensures
        in_range(swap_removed_all(es, ix, keys), n),
        distinct(ix) ==> distinct(swap_removed_all(es, ix, keys)),
        forall|x: usize| swap_removed_all(es, ix, keys).contains(x) ==> ix.contains(x),
    decreases keys.len(),
{
    if keys.len() > 0 {
        lemma_swap_removed(es, ix, keys[0], n);
        lemma_removed_all(es, swap_removed(es, ix, keys[0]), keys.drop_first(), n);
    }
}

proof fn lemma_key_removed(es: Seq<(Yaml, Yaml)>, ix: Seq<usize>, keys: Seq<Seq<char>>, i: int, key: Seq<char>)
    requires
        in_range(ix, es.len() as int),
        distinct(ix),
        keys.contains(key),
        only_key_at(es, i, key),
    ensures
        !swap_removed_all(es, ix, keys).contains(i as usize),
    decreases keys.len(),
{
    let n = es.len() as int;
    lemma_swap_removed(es, ix, keys[0], n);
    let ix1 = swap_removed(es, ix, keys[0]);
    if keys[0] == key {
        lemma_key_position_found(es, ix, key);
        match key_position(es, ix, key) {
            Some(p) => {
                assert(ix[p] == i as usize);
            },
            None => {
                if ix.contains(i as usize) {
                    let q = choose|q: int| 0 <= q < ix.len() && ix[q] == i as usize;
                    assert(key_is(es[ix[q] as int].0, key));
                }
            },
        }
        assert(!ix1.contains(i as usize));
        lemma_removed_all(es, ix1, keys.drop_first(), n);
    } else {
        assert(keys.drop_first().contains(key)) by {
            let t = choose|t: int| 0 <= t < keys.len() && keys[t] == key;
            assert(keys.drop_first()[t - 1] == key);
        }
        lemma_key_removed(es, ix1, keys.drop_first(), i, key);
    }
}

proof fn lemma_same_keys(es1: Seq<(Yaml, Yaml)>, es2: Seq<(Yaml, Yaml)>, ix: Seq<usize>, keys: Seq<Seq<char>>, key: Seq<char>)
    requires
        es1.len() == es2.len(),
        forall|j: int| 0 <= j < es1.len() ==> #[trigger] es1[j].0 == es2[j].0,
        in_range(ix, es1.len() as int),
    ensures
        key_position(es1, ix, key) == key_position(es2, ix, key),
        swap_removed_all(es1, ix, keys) == swap_removed_all(es2, ix, keys),
    decreases keys.len(), ix.len(),
{
    if ix.len() > 0 {
        let rest = ix.drop_first();
        assert(es1[ix[0] as int].0 == es2[ix[0] as int].0);
        lemma_same_keys(es1, es2, rest, Seq::empty(), key);
    }
    if keys.len() > 0 {
        lemma_same_keys(es1, es2, ix, Seq::empty(), keys[0]);
        lemma_swap_removed(es1, ix, keys[0], es1.len() as int);
        lemma_same_keys(es1, es2, swap_removed(es1, ix, keys[0]), keys.drop_first(), key);
    }
}

proof fn lemma_members_agree(
    es1: Seq<(Yaml, Yaml)>,
    es2: Seq<(Yaml, Yaml)>,
    ix: Seq<usize>,
    k: int,
    render: spec_fn(int, Yaml) -> Result<Seq<char>, Seq<char>>,
)
    requires
        forall|p: int| 0 <= p < ix.len() ==> es1[#[trigger] ix[p] as int] == es2[ix[p] as int],
    ensures
        members_at(es1, ix, k, render) == members_at(es2, ix, k, render),
    decreases k,
{
    if k > 0 && k <= ix.len() {
        lemma_members_agree(es1, es2, ix, k - 1, render);
        assert(es1[ix[k - 1] as int] == es2[ix[k - 1] as int]);
    }
}

proof fn lemma_projection_ignores(es: Seq<(Yaml, Yaml)>, changed: Seq<(Yaml, Yaml)>, keys: Seq<Seq<char>>, i: int, key: Seq<char>, v: Yaml)
    requires
        keys.contains(key),
        only_key_at(es, i, key),
        changed == es.update(i, (es[i].0, v)),
    ensures
        swap_removed_all(changed, all_positions(changed.len()), keys) == swap_removed_all(es, all_positions(es.len()), keys),
        forall|p: int|
            0 <= p < swap_removed_all(es, all_positions(es.len()), keys).len() ==> es[#[trigger] swap_removed_all(
                es,
                all_positions(es.len()),
                keys,
            )[p] as int] == changed[swap_removed_all(es, all_positions(es.len()), keys)[p] as int],
        key_position(changed, swap_removed_all(es, all_positions(es.len()), keys), "claims"@) == key_position(
            es,
            swap_removed_all(es, all_positions(es.len()), keys),
            "claims"@,
        ),
{
    let ix0 = all_positions(es.len());
    assert(in_range(ix0, es.len() as int));
    assert forall|a: int, b: int| 0 <= a < ix0.len() && 0 <= b < ix0.len() && a != b implies #[trigger] ix0[a] != #[trigger] ix0[b] by {
        assert(ix0[a] as int == a);
        assert(ix0[b] as int == b);
    }
    assert forall|j: int| 0 <= j < es.len() implies #[trigger] es[j].0 == changed[j].0 by {}
    lemma_same_keys(es, changed, ix0, keys, "claims"@);
    let f = swap_removed_all(es, ix0, keys);
    lemma_removed_all(es, ix0, keys, es.len() as int);
    lemma_key_removed(es, ix0, keys, i, key);
    lemma_same_keys(es, changed, f, Seq::empty(), "claims"@);
    assert forall|p: int| 0 <= p < f.len() implies es[#[trigger] f[p] as int] == changed[f[p] as int] by {
        assert(f[p] != i as usize) by {
            if f[p] == i as usize {
                assert(f.contains(i as usize));
            }
        }
    }
}

/// Setting the value of an administrative field (`created_at`,
/// `updated_at`, `generated`, `verified`, `semantic_hash`, `lifecycle` or
/// `freshness`) among front-matter entries leaves their hash projection as
/// it was.
pub proof fn law_object_projection_ignores_administrative_fields(
    es: Seq<(Yaml, Yaml)>,
    changed: Seq<(Yaml, Yaml)>,
    i: int,
    key: Seq<char>,
    v: Yaml,
)
    requires
        object_keys().contains(key),
        only_key_at(es, i, key),
        changed == es.update(i, (es[i].0, v)),
    ensures
        object_json_entries(changed) == object_json_entries(es),
{
    lemma_projection_ignores(es, changed, object_keys(), i, key, v);
    let f = swap_removed_all(es, all_positions(es.len()), object_keys());
    let render = value_render(key_position(es, f, "claims"@));
    lemma_members_agree(es, changed, f, f.len() as int, render);
}

/// Setting the value of an administrative field (`created_at`,
/// `updated_at`, `generated`, `verified`, `semantic_hash`, `lifecycle` or
/// `freshness`) of an object's front matter leaves its hash projection, and
/// so its semantic hash, as it was.
pub proof fn law_object_hash_ignores_administrative_fields(m: Yaml, changed: Yaml, i: int, key: Seq<char>, v: Yaml, body: Seq<char>)
    requires
        m is Mapping,
        changed is Mapping,
        object_keys().contains(key),
        only_key_at(m->Mapping_0@, i, key),
        changed->Mapping_0@ == m->Mapping_0@.update(i, (m->Mapping_0@[i].0, v)),
    ensures
        object_json(changed) == object_json(m),
        object_hash_spec(changed, body) == object_hash_spec(m, body),
{
    law_object_projection_ignores_administrative_fields(m->Mapping_0@, changed->Mapping_0@, i, key, v);
}

/// Setting the value of an administrative field (`semantic_hash`,
/// `lifecycle` or `freshness`) of a claim leaves its hash projection, and
/// so its semantic hash, as it was.
pub proof fn law_claim_hash_ignores_administrative_fields(c: Yaml, changed: Yaml, i: int, key: Seq<char>, v: Yaml)
    requires
        c is Mapping,
        changed is Mapping,
        claim_keys().contains(key),
        only_key_at(c->Mapping_0@, i, key),
        changed->Mapping_0@ == c->Mapping_0@.update(i, (c->Mapping_0@[i].0, v)),
    ensures
        claim_json(changed) == claim_json(c),
        claim_hash_spec(changed) == claim_hash_spec(c),
{
    let es = c->Mapping_0@;
    let ch = changed->Mapping_0@;
    lemma_projection_ignores(es, ch, claim_keys(), i, key, v);
    let f = swap_removed_all(es, all_positions(es.len()), claim_keys());
    lemma_members_agree(es, ch, f, f.len() as int, plain_render());
}

proof fn lemma_text_less_irreflexive(a: Seq<char>)
    ensures
        !text_less(a, a),
    decreases a.len(),
{
    if a.len() > 0 {
        lemma_text_less_irreflexive(a.drop_first());
    }
}

proof fn lemma_text_less_asymmetric(a: Seq<char>, b: Seq<char>)
    ensures
        text_less(a, b) ==> !text_less(b, a),
    decreases a.len(),
{
    if a.len() > 0 && b.len() > 0 && a[0] == b[0] {
        lemma_text_less_asymmetric(a.drop_first(), b.drop_first());
    }
}

proof fn lemma_text_less_transitive(a: Seq<char>, b: Seq<char>, c: Seq<char>)
    ensures
        text_less(a, b) && text_less(b, c) ==> text_less(a, c),
    decreases a.len(),
{
    if a.len() > 0 && b.len() > 0 && c.len() > 0 && a[0] == b[0] && b[0] == c[0] {
        lemma_text_less_transitive(a.drop_first(), b.drop_first(), c.drop_first());
    }
}

proof fn lemma_text_less_total(a: Seq<char>, b: Seq<char>)
    ensures
        a != b ==> text_less(a, b) || text_less(b, a),
    decreases a.len(),
{
    if a.len() > 0 && b.len() > 0 && a[0] != b[0] {
        assert((a[0] as int) != (b[0] as int));
    }
    if a.len() > 0 && b.len() > 0 && a[0] == b[0] {
        lemma_text_less_total(a.drop_first(), b.drop_first());
        if a.drop_first() == b.drop_first() {
            assert(a =~= seq![a[0]] + a.drop_first());
            assert(b =~= seq![b[0]] + b.drop_first());
        }
    } else if a.len() == 0 && b.len() == 0 {
        assert(a =~= b);
    }
}

/// Members strictly sorted by key.
pub open spec fn strictly_sorted(ms: Seq<(Seq<char>, Seq<char>)>) -> bool {
    forall|i: int, j: int| 0 <= i < j < ms.len() ==> text_less(#[trigger] ms[i].0, #[trigger] ms[j].0)
}

/// No member of `ms` has the key `k`.
pub open spec fn key_absent(ms: Seq<(Seq<char>, Seq<char>)>, k: Seq<char>) -> bool {
    forall|i: int| 0 <= i < ms.len() ==> #[trigger] ms[i].0 != k
}

proof fn lemma_member_insert_new(ms: Seq<(Seq<char>, Seq<char>)>, k: Seq<char>, v: Seq<char>)
    requires
        strictly_sorted(ms),
        key_absent(ms, k),
    ensures
        strictly_sorted(member_insert(ms, k, v)),
        forall|x: (Seq<char>, Seq<char>)|
            #![trigger member_insert(ms, k, v).contains(x)]
            member_insert(ms, k, v).contains(x) <==> (ms.contains(x) || x == (k, v)),
        member_insert(ms, k, v).len() == ms.len() + 1,
    decreases ms.len(),
{
    let r = member_insert(ms, k, v);
    if ms.len() == 0 {
        assert forall|x: (Seq<char>, Seq<char>)| r.contains(x) <==> (ms.contains(x) || x == (k, v)) by {
            if r.contains(x) {
                assert(r[0] == (k, v));
            }
            if x == (k, v) {
                assert(r[0] == x);
            }
        }
    } else if text_less(k, ms[0].0) {
        assert(r == seq![(k, v)] + ms);
        assert forall|i: int, j: int| 0 <= i < j < r.len() implies text_less(#[trigger] r[i].0, #[trigger] r[j].0) by {
            if i == 0 {
                if j > 1 {
                    lemma_text_less_transitive(k, ms[0].0, ms[j - 1].0);
                }
            } else {
                assert(r[i] == ms[i - 1] && r[j] == ms[j - 1]);
            }
        }
        assert forall|x: (Seq<char>, Seq<char>)| r.contains(x) <==> (ms.contains(x) || x == (k, v)) by {
            if r.contains(x) {
                let i = choose|i: int| 0 <= i < r.len() && r[i] == x;
                if i > 0 {
                    assert(ms[i - 1] == x);
                }
            }
            if ms.contains(x) {
                let i = choose|i: int| 0 <= i < ms.len() && ms[i] == x;
                assert(r[i + 1] == x);
            }
            if x == (k, v) {
                assert(r[0] == x);
            }
        }
    } else {
        assert(ms[0].0 != k);
        lemma_text_less_total(k, ms[0].0);
        let rest = ms.drop_first();
        assert forall|i: int, j: int| 0 <= i < j < rest.len() implies text_less(#[trigger] rest[i].0, #[trigger] rest[j].0) by {
            assert(rest[i] == ms[i + 1] && rest[j] == ms[j + 1]);
        }
        assert forall|i: int| 0 <= i < rest.len() implies #[trigger] rest[i].0 != k by {
            assert(rest[i] == ms[i + 1]);
        }
        lemma_member_insert_new(rest, k, v);
        let t = member_insert(rest, k, v);
        assert(r == seq![ms[0]] + t);
        assert forall|i: int| 0 <= i < t.len() implies text_less(ms[0].0, #[trigger] t[i].0) by {
            assert(t.contains(t[i]));
            if t[i] == (k, v) {
            } else {
                assert(rest.contains(t[i]));
                let q = choose|q: int| 0 <= q < rest.len() && rest[q] == t[i];
                assert(ms[q + 1] == t[i]);
            }
        }
        assert forall|i: int, j: int| 0 <= i < j < r.len() implies text_less(#[trigger] r[i].0, #[trigger] r[j].0) by {
            if i == 0 {
                assert(r[j] == t[j - 1]);
            } else {
                assert(r[i] == t[i - 1] && r[j] == t[j - 1]);
            }
        }
        assert forall|x: (Seq<char>, Seq<char>)| r.contains(x) <==> (ms.contains(x) || x == (k, v)) by {
            if r.contains(x) {
                let i = choose|i: int| 0 <= i < r.len() && r[i] == x;
                if i > 0 {
                    assert(r[i] == t[i - 1]);
                    assert(t.contains(x));
                    if x != (k, v) {
                        assert(rest.contains(x));
                        let q = choose|q: int| 0 <= q < rest.len() && rest[q] == x;
                        assert(ms[q + 1] == x);
                    }
                } else {
                    assert(ms[0] == x);
                }
            }
            if ms.contains(x) {
                let i = choose|i: int| 0 <= i < ms.len() && ms[i] == x;
                if i == 0 {
                    assert(r[0] == x);
                } else {
                    assert(rest[i - 1] == x);
                    assert(rest.contains(x));
                    assert(t.contains(x));
                    let q = choose|q: int| 0 <= q < t.len() && t[q] == x;
                    assert(r[q + 1] == x);
                }
            }
            if x == (k, v) {
                assert(t.contains(x));
                let q = choose|q: int| 0 <= q < t.len() && t[q] == x;
                assert(r[q + 1] == x);
            }
        }
    }
}

proof fn lemma_sorted_unique(a: Seq<(Seq<char>, Seq<char>)>, b: Seq<(Seq<char>, Seq<char>)>)
    requires
        strictly_sorted(a),
        strictly_sorted(b),
        forall|x: (Seq<char>, Seq<char>)| a.contains(x) <==> b.contains(x),
    ensures
        a == b,
    decreases a.len(),
{
    if a.len() == 0 {
        if b.len() > 0 {
            assert(b.contains(b[0]));
        }
        assert(a =~= b);
    } else {
        assert(a.contains(a[0]));
        assert(b.len() > 0);
        assert(b.contains(b[0]));
        if a[0] != b[0] {
            let i = choose|i: int| 0 <= i < a.len() && a[i] == b[0];
            let j = choose|j: int| 0 <= j < b.len() && b[j] == a[0];
            assert(i > 0 && j > 0);
            assert(text_less(a[0].0, a[i].0));
            assert(text_less(b[0].0, b[j].0));
            lemma_text_less_asymmetric(a[0].0, b[0].0);
        }
        let ra = a.drop_first();
        let rb = b.drop_first();
        assert forall|i: int, j: int| 0 <= i < j < ra.len() implies text_less(#[trigger] ra[i].0, #[trigger] ra[j].0) by {
            assert(ra[i] == a[i + 1] && ra[j] == a[j + 1]);
        }
        assert forall|i: int, j: int| 0 <= i < j < rb.len() implies text_less(#[trigger] rb[i].0, #[trigger] rb[j].0) by {
            assert(rb[i] == b[i + 1] && rb[j] == b[j + 1]);
        }
        assert forall|x: (Seq<char>, Seq<char>)| ra.contains(x) <==> rb.contains(x) by {
            if ra.contains(x) {
                let i = choose|i: int| 0 <= i < ra.len() && ra[i] == x;
                assert(a[i + 1] == x);
                assert(a.contains(x));
                assert(b.contains(x));
                let j = choose|j: int| 0 <= j < b.len() && b[j] == x;
                if j == 0 {
                    assert(text_less(a[0].0, a[i + 1].0));
                    lemma_text_less_irreflexive(a[0].0);
                }
                assert(rb[j - 1] == x);
            }
            if rb.contains(x) {
                let j = choose|j: int| 0 <= j < rb.len() && rb[j] == x;
                assert(b[j + 1] == x);
                assert(b.contains(x));
                assert(a.contains(x));
                let i = choose|i: int| 0 <= i < a.len() && a[i] == x;
                if i == 0 {
                    assert(text_less(b[0].0, b[j + 1].0));
                    lemma_text_less_irreflexive(b[0].0);
                }
                assert(ra[i - 1] == x);
            }
        }
        lemma_sorted_unique(ra, rb);
        assert(a =~= seq![a[0]] + ra);
        assert(b =~= seq![b[0]] + rb);
    }
}

/// No two entries have the same string key.
pub open spec fn unique_keys(es: Seq<(Yaml, Yaml)>) -> bool {
    forall|i: int, j: int, k: Seq<char>|
        0 <= i < es.len() && 0 <= j < es.len() && i != j && #[trigger] key_is(es[i].0, k) ==> !#[trigger] key_is(
            es[j].0,
            k,
        )
}

/// `y` is none of the string keys `keys`.
pub open spec fn none_of(y: Yaml, keys: Seq<Seq<char>>) -> bool {
    forall|t: int| 0 <= t < keys.len() ==> !key_is(y, #[trigger] keys[t])
}

proof fn lemma_swap_removed_set(es: Seq<(Yaml, Yaml)>, ix: Seq<usize>, key: Seq<char>)
    requires
        in_range(ix, es.len() as int),
        distinct(ix),
        unique_keys(es),
    ensures
        forall|x: usize|
            #![trigger swap_removed(es, ix, key).contains(x)]
            swap_removed(es, ix, key).contains(x) <==> (ix.contains(x) && !key_is(es[x as int].0, key)),
{
    lemma_key_position_found(es, ix, key);
    lemma_swap_removed(es, ix, key, es.len() as int);
    let r = swap_removed(es, ix, key);
    assert forall|x: usize| r.contains(x) <==> (ix.contains(x) && !key_is(es[x as int].0, key)) by {
        match key_position(es, ix, key) {
            Some(p) => {
                let last = ix.len() - 1;
                if r.contains(x) {
                    assert(ix.contains(x));
                    if key_is(es[x as int].0, key) {
                        let q = choose|q: int| 0 <= q < ix.len() && ix[q] == x;
                        assert(key_is(es[ix[p] as int].0, key));
                        assert(x == ix[p]);
                    }
                }
                if ix.contains(x) && !key_is(es[x as int].0, key) {
                    let q = choose|q: int| 0 <= q < ix.len() && ix[q] == x;
                    assert(q != p);
                    if q == last {
                        assert(r[p] == x);
                    } else {
                        assert(r[q] == x);
                    }
                }
            },
            None => {
                if ix.contains(x) {
                    let q = choose|q: int| 0 <= q < ix.len() && ix[q] == x;
                    assert(!key_is(es[ix[q] as int].0, key));
                }
            },
        }
    }
}

proof fn lemma_removed_all_set(es: Seq<(Yaml, Yaml)>, ix: Seq<usize>, keys: Seq<Seq<char>>)
    requires
        in_range(ix, es.len() as int),
        distinct(ix),
        unique_keys(es),
    ensures
        forall|x: usize|
            #![trigger swap_removed_all(es, ix, keys).contains(x)]
            swap_removed_all(es, ix, keys).contains(x) <==> (ix.contains(x) && none_of(es[x as int].0, keys)),
    decreases keys.len(),
{
    if keys.len() == 0 {
        assert forall|x: usize| ix.contains(x) implies none_of(es[x as int].0, keys) by {}
    } else {
        let ix1 = swap_removed(es, ix, keys[0]);
        let rest = keys.drop_first();
        lemma_swap_removed_set(es, ix, keys[0]);
        lemma_swap_removed(es, ix, keys[0], es.len() as int);
        lemma_removed_all_set(es, ix1, rest);
        assert forall|x: usize|
            swap_removed_all(es, ix, keys).contains(x) <==> (ix.contains(x) && none_of(es[x as int].0, keys)) by {
            assert(swap_removed_all(es, ix, keys) == swap_removed_all(es, ix1, rest));
            let y = es[x as int].0;
            if none_of(y, keys) {
                assert(!key_is(y, keys[0]));
                assert forall|t: int| 0 <= t < rest.len() implies !key_is(y, #[trigger] rest[t]) by {
                    assert(rest[t] == keys[t + 1]);
                }
            }
            if !key_is(y, keys[0]) && none_of(y, rest) {
                assert forall|t: int| 0 <= t < keys.len() implies !key_is(y, #[trigger] keys[t]) by {
                    if t > 0 {
                        assert(keys[t] == rest[t - 1]);
                    }
                }
            }
        }
    }
}

/// How an entry's value is rendered in an object's projection: the claims
/// list has its claims projected.
pub open spec fn object_entry_text() -> spec_fn((Yaml, Yaml)) -> Result<Seq<char>, Seq<char>> {
    |e: (Yaml, Yaml)| if key_is(e.0, "claims"@) {
        claims_list_text(e.1)
    } else {
        canonical(e.1)
    }
}

/// How an entry's value is rendered in a claim's projection.
pub open spec fn claim_entry_text() -> spec_fn((Yaml, Yaml)) -> Result<Seq<char>, Seq<char>> {
    |e: (Yaml, Yaml)| canonical(e.1)
}

/// The entry has a string key and a value that renders.
pub open spec fn entry_ok(text: spec_fn((Yaml, Yaml)) -> Result<Seq<char>, Seq<char>>, e: (Yaml, Yaml)) -> bool {
    e.0 is Str && text(e) is Ok
}

/// The member an entry contributes to a projection.
pub open spec fn entry_member(text: spec_fn((Yaml, Yaml)) -> Result<Seq<char>, Seq<char>>, e: (Yaml, Yaml)) -> (
    Seq<char>,
    Seq<char>,
) {
    (e.0->Str_0@, text(e)->Ok_0)
}

proof fn lemma_members_set(
    es: Seq<(Yaml, Yaml)>,
    ix: Seq<usize>,
    k: int,
    render: spec_fn(int, Yaml) -> Result<Seq<char>, Seq<char>>,
    text: spec_fn((Yaml, Yaml)) -> Result<Seq<char>, Seq<char>>,
)
    requires
        in_range(ix, es.len() as int),
        distinct(ix),
        unique_keys(es),
        0 <= k <= ix.len(),
        forall|q: int| #![trigger ix[q]] 0 <= q < ix.len() ==> render(q, es[ix[q] as int].1) == text(es[ix[q] as int]),
    ensures
        members_at(es, ix, k, render) is Ok <==> forall|q: int| 0 <= q < k ==> #[trigger] entry_ok(text, es[ix[q] as int]),
        members_at(es, ix, k, render) matches Ok(ms) ==> strictly_sorted(ms) && forall|x: (Seq<char>, Seq<char>)|
            #![trigger ms.contains(x)]
            ms.contains(x) <==> exists|q: int| 0 <= q < k && x == #[trigger] entry_member(text, es[ix[q] as int]),
    decreases k,
{
    if k > 0 {
        lemma_members_set(es, ix, k - 1, render, text);
        let e = es[ix[k - 1] as int];
        assert(render(k - 1, e.1) == text(e));
        if !entry_ok(text, e) {
            assert(members_at(es, ix, k, render) is Err);
        }
        match members_at(es, ix, k - 1, render) {
            Err(_) => {
                assert(!(forall|q: int| 0 <= q < k ==> #[trigger] entry_ok(text, es[ix[q] as int]))) by {
                    let q0 = choose|q: int| 0 <= q < k - 1 && !#[trigger] entry_ok(text, es[ix[q] as int]);
                    assert(!entry_ok(text, es[ix[q0] as int]));
                }
            },
            Ok(prev) => {
                if entry_ok(text, e) {
                    let key = e.0->Str_0;
                    let t = text(e)->Ok_0;
                    assert(key_is(e.0, key@));
                    assert forall|i: int| 0 <= i < prev.len() implies #[trigger] prev[i].0 != key@ by {
                        assert(prev.contains(prev[i]));
                        let q = choose|q: int| 0 <= q < k - 1 && prev[i] == #[trigger] entry_member(text, es[ix[q] as int]);
                        if prev[i].0 == key@ {
                            assert(entry_ok(text, es[ix[q] as int]));
                            assert(key_is(es[ix[q] as int].0, key@));
                            assert(ix[q] != ix[k - 1]);
                        }
                    }
                    lemma_member_insert_new(prev, key@, t);
                    let ms = member_insert(prev, key@, t);
                    assert(members_at(es, ix, k, render) == Ok::<Seq<(Seq<char>, Seq<char>)>, Seq<char>>(ms));
                    assert forall|x: (Seq<char>, Seq<char>)|
                        ms.contains(x) <==> exists|q: int| 0 <= q < k && x == #[trigger] entry_member(text, es[ix[q] as int]) by {
                        if ms.contains(x) {
                            if x == (key@, t) {
                                assert(x == entry_member(text, es[ix[k - 1] as int]));
                            } else {
                                assert(prev.contains(x));
                                let q = choose|q: int| 0 <= q < k - 1 && x == #[trigger] entry_member(text, es[ix[q] as int]);
                                assert(x == entry_member(text, es[ix[q] as int]));
                            }
                        }
                        if exists|q: int| 0 <= q < k && x == #[trigger] entry_member(text, es[ix[q] as int]) {
                            let q = choose|q: int| 0 <= q < k && x == #[trigger] entry_member(text, es[ix[q] as int]);
                            if q < k - 1 {
                                assert(prev.contains(x));
                            }
                        }
                    }
                    assert forall|q: int| 0 <= q < k implies #[trigger] entry_ok(text, es[ix[q] as int]) by {
                        if q < k - 1 {
                            assert(entry_ok(text, es[ix[q] as int]));
                        }
                    }
                }
            },
        }
    }
}

proof fn lemma_value_render(es: Seq<(Yaml, Yaml)>, ix: Seq<usize>)
    requires
        in_range(ix, es.len() as int),
        distinct(ix),
        unique_keys(es),
    ensures
        forall|q: int|
            #![trigger ix[q]]
            0 <= q < ix.len() ==> value_render(key_position(es, ix, "claims"@))(q, es[ix[q] as int].1) == object_entry_text()(
                es[ix[q] as int],
            ),
{
    lemma_key_position_found(es, ix, "claims"@);
    assert forall|q: int| #![trigger ix[q]] 0 <= q < ix.len() implies value_render(key_position(es, ix, "claims"@))(
        q,
        es[ix[q] as int].1,
    ) == object_entry_text()(es[ix[q] as int]) by {
        if let Some(p) = key_position(es, ix, "claims"@) {
            if key_is(es[ix[q] as int].0, "claims"@) && p != q {
                assert(ix[p] != ix[q]);
                assert(key_is(es[ix[p] as int].0, "claims"@));
            }
        }
    }
}

/// The positions of the entries left once the fields `keys` are taken out.
pub open spec fn projected_positions(es: Seq<(Yaml, Yaml)>, keys: Seq<Seq<char>>) -> Seq<usize> {
    swap_removed_all(es, all_positions(es.len()), keys)
}

/// `render` renders each entry listed by `ix` as `text` does.
pub open spec fn renders_as(
    es: Seq<(Yaml, Yaml)>,
    ix: Seq<usize>,
    render: spec_fn(int, Yaml) -> Result<Seq<char>, Seq<char>>,
    text: spec_fn((Yaml, Yaml)) -> Result<Seq<char>, Seq<char>>,
) -> bool {
    forall|q: int| #![trigger ix[q]] 0 <= q < ix.len() ==> render(q, es[ix[q] as int].1) == text(es[ix[q] as int])
}

proof fn lemma_all_positions(n: nat)
    requires
        n <= usize::MAX,
    ensures
        in_range(all_positions(n), n as int),
        distinct(all_positions(n)),
        forall|x: usize| #[trigger] all_positions(n).contains(x) <==> x < n,
{
    let ix = all_positions(n);
    assert forall|a: int, b: int| 0 <= a < ix.len() && 0 <= b < ix.len() && a != b implies #[trigger] ix[a] != #[trigger] ix[b] by {
        assert(ix[a] as int == a);
        assert(ix[b] as int == b);
    }
    assert forall|x: usize| ix.contains(x) <==> x < n by {
        if x < n {
            assert(ix[x as int] == x);
        }
    }
}

proof fn lemma_projected_valid(es: Seq<(Yaml, Yaml)>, keys: Seq<Seq<char>>)
    requires
        es.len() <= usize::MAX,
    ensures
        in_range(projected_positions(es, keys), es.len() as int),
        distinct(projected_positions(es, keys)),
{
    lemma_all_positions(es.len());
    lemma_removed_all(es, all_positions(es.len()), keys, es.len() as int);
}

proof fn lemma_push_members(
    es: Seq<(Yaml, Yaml)>,
    e: (Yaml, Yaml),
    keys: Seq<Seq<char>>,
    key: Seq<char>,
    text: spec_fn((Yaml, Yaml)) -> Result<Seq<char>, Seq<char>>,
    r1: spec_fn(int, Yaml) -> Result<Seq<char>, Seq<char>>,
    r2: spec_fn(int, Yaml) -> Result<Seq<char>, Seq<char>>,
)
    requires
        keys.contains(key),
        key_is(e.0, key),
        unique_keys(es.push(e)),
        es.len() < usize::MAX,
        renders_as(es, projected_positions(es, keys), r1, text),
        renders_as(es.push(e), projected_positions(es.push(e), keys), r2, text),
    ensures
        members_at(es, projected_positions(es, keys), projected_positions(es, keys).len() as int, r1) is Ok
            <==> members_at(
            es.push(e),
            projected_positions(es.push(e), keys),
            projected_positions(es.push(e), keys).len() as int,
            r2,
        ) is Ok,
        members_at(es, projected_positions(es, keys), projected_positions(es, keys).len() as int, r1) is Ok
            ==> members_at(es, projected_positions(es, keys), projected_positions(es, keys).len() as int, r1)
            == members_at(
            es.push(e),
            projected_positions(es.push(e), keys),
            projected_positions(es.push(e), keys).len() as int,
            r2,
        ),
{
    let es2 = es.push(e);
    let n = es.len();
    assert forall|i: int, j: int, k: Seq<char>|
        0 <= i < es.len() && 0 <= j < es.len() && i != j && #[trigger] key_is(es[i].0, k) implies !#[trigger] key_is(
        es[j].0,
        k,
    ) by {
        assert(es2[i] == es[i] && es2[j] == es[j]);
    }
    let f = projected_positions(es, keys);
    let f2 = projected_positions(es2, keys);
    lemma_all_positions(n);
    lemma_all_positions(n + 1);
    lemma_projected_valid(es, keys);
    lemma_projected_valid(es2, keys);
    lemma_removed_all_set(es, all_positions(n), keys);
    lemma_removed_all_set(es2, all_positions(n + 1), keys);
    assert forall|x: usize| f.contains(x) implies (x < n && es2[x as int] == es[x as int]) by {
        assert(all_positions(n).contains(x));
    }
    assert forall|x: usize| #[trigger] f.contains(x) <==> f2.contains(x) by {
        if x == n {
            assert(es2[n as int] == e);
            let t = choose|t: int| 0 <= t < keys.len() && keys[t] == key;
            assert(!none_of(es2[n as int].0, keys));
        }
        if x < n {
            assert(es2[x as int] == es[x as int]);
            assert(all_positions(n).contains(x));
            assert(all_positions(n + 1).contains(x));
        }
        if f2.contains(x) {
            assert(all_positions(n + 1).contains(x));
        }
    }
    lemma_members_set(es, f, f.len() as int, r1, text);
    lemma_members_set(es2, f2, f2.len() as int, r2, text);
    if forall|q: int| 0 <= q < f.len() ==> #[trigger] entry_ok(text, es[f[q] as int]) {
        assert forall|q2: int| 0 <= q2 < f2.len() implies #[trigger] entry_ok(text, es2[f2[q2] as int]) by {
            let x = f2[q2];
            assert(f2.contains(x));
            assert(f.contains(x));
            let q = choose|q: int| 0 <= q < f.len() && f[q] == x;
            assert(entry_ok(text, es[f[q] as int]));
        }
    }
    if forall|q2: int| 0 <= q2 < f2.len() ==> #[trigger] entry_ok(text, es2[f2[q2] as int]) {
        assert forall|q: int| 0 <= q < f.len() implies #[trigger] entry_ok(text, es[f[q] as int]) by {
            let x = f[q];
            assert(f.contains(x));
            assert(f2.contains(x));
            let q2 = choose|q2: int| 0 <= q2 < f2.len() && f2[q2] == x;
            assert(entry_ok(text, es2[f2[q2] as int]));
        }
    }
    if let Ok(ms) = members_at(es, f, f.len() as int, r1) {
        let ms2 = members_at(es2, f2, f2.len() as int, r2)->Ok_0;
        assert forall|x: (Seq<char>, Seq<char>)| ms.contains(x) <==> ms2.contains(x) by {
            if ms.contains(x) {
                let q = choose|q: int| 0 <= q < f.len() && x == #[trigger] entry_member(text, es[f[q] as int]);
                assert(f.contains(f[q]));
                assert(f2.contains(f[q]));
                let q2 = choose|q2: int| 0 <= q2 < f2.len() && f2[q2] == f[q];
                assert(x == entry_member(text, es2[f2[q2] as int]));
            }
            if ms2.contains(x) {
                let q2 = choose|q2: int| 0 <= q2 < f2.len() && x == #[trigger] entry_member(text, es2[f2[q2] as int]);
                assert(f2.contains(f2[q2]));
                assert(f.contains(f2[q2]));
                let q = choose|q: int| 0 <= q < f.len() && f[q] == f2[q2];
                assert(x == entry_member(text, es[f[q] as int]));
            }
        }
        lemma_sorted_unique(ms, ms2);
    }
}

/// Adding an administrative field (`created_at`, `updated_at`,
/// `generated`, `verified`, `semantic_hash`, `lifecycle` or `freshness`)
/// that front-matter entries lack leaves their hash projection as it was:
/// it renders exactly when it did, and then to the same text.
pub proof fn law_object_projection_ignores_added_administrative_field(
    es: Seq<(Yaml, Yaml)>,
    e: (Yaml, Yaml),
    key: Seq<char>,
)
    requires
        object_keys().contains(key),
        key_is(e.0, key),
        unique_keys(es.push(e)),
        es.len() < usize::MAX,
    ensures
        object_json_entries(es.push(e)) is Ok <==> object_json_entries(es) is Ok,
        object_json_entries(es) is Ok ==> object_json_entries(es.push(e)) == object_json_entries(es),
{
    let es2 = es.push(e);
    let keys = object_keys();
    assert forall|i: int, j: int, k: Seq<char>|
        0 <= i < es.len() && 0 <= j < es.len() && i != j && #[trigger] key_is(es[i].0, k) implies !#[trigger] key_is(
        es[j].0,
        k,
    ) by {
        assert(es2[i] == es[i] && es2[j] == es[j]);
    }
    lemma_projected_valid(es, keys);
    lemma_projected_valid(es2, keys);
    let f = projected_positions(es, keys);
    let f2 = projected_positions(es2, keys);
    lemma_value_render(es, f);
    lemma_value_render(es2, f2);
    lemma_push_members(
        es,
        e,
        keys,
        key,
        object_entry_text(),
        value_render(key_position(es, f, "claims"@)),
        value_render(key_position(es2, f2, "claims"@)),
    );
}

/// Adding an administrative field (`created_at`, `updated_at`,
/// `generated`, `verified`, `semantic_hash`, `lifecycle` or `freshness`)
/// that an object's front matter lacks leaves its hash projection, and so
/// its semantic hash, as it was.
pub proof fn law_object_hash_ignores_added_administrative_field(
    m: Yaml,
    changed: Yaml,
    e: (Yaml, Yaml),
    key: Seq<char>,
    body: Seq<char>,
)
    requires
        m is Mapping,
        changed is Mapping,
        object_keys().contains(key),
        key_is(e.0, key),
        changed->Mapping_0@ == m->Mapping_0@.push(e),
        unique_keys(changed->Mapping_0@),
        changed->Mapping_0@.len() <= usize::MAX,
    ensures
        object_json(changed) is Ok <==> object_json(m) is Ok,
        object_json(m) is Ok ==> object_json(changed) == object_json(m),
        object_json(m) is Ok ==> object_hash_spec(changed, body) == object_hash_spec(m, body),
{
    law_object_projection_ignores_added_administrative_field(m->Mapping_0@, e, key);
}

/// Adding an administrative field (`semantic_hash`, `lifecycle` or
/// `freshness`) that a claim lacks leaves its hash projection, and so its
/// semantic hash, as it was.
pub proof fn law_claim_hash_ignores_added_administrative_field(c: Yaml, changed: Yaml, e: (Yaml, Yaml), key: Seq<char>)
    requires
        c is Mapping,
        changed is Mapping,
        claim_keys().contains(key),
        key_is(e.0, key),
        changed->Mapping_0@ == c->Mapping_0@.push(e),
        unique_keys(changed->Mapping_0@),
        changed->Mapping_0@.len() <= usize::MAX,
    ensures
        claim_json(changed) is Ok <==> claim_json(c) is Ok,
        claim_json(c) is Ok ==> claim_json(changed) == claim_json(c),
        claim_json(c) is Ok ==> claim_hash_spec(changed) == claim_hash_spec(c),
{
    let es = c->Mapping_0@;
    let es2 = changed->Mapping_0@;
    let f = projected_positions(es, claim_keys());
    let f2 = projected_positions(es2, claim_keys());
    assert(renders_as(es, f, plain_render(), claim_entry_text()));
    assert(renders_as(es2, f2, plain_render(), claim_entry_text()));
    lemma_push_members(es, e, claim_keys(), key, claim_entry_text(), plain_render(), plain_render());
}

/// An object's semantic hash is the same over a body without carriage
/// returns and over that body normalized.
pub proof fn law_object_hash_ignores_body_normalization(m: Yaml, body: Seq<char>)
    requires
        forall|i: int| 0 <= i < body.len() ==> #[trigger] body[i] != '\r',
    ensures
        object_hash_spec(m, normalized(body)) == object_hash_spec(m, body),
{
    law_normalization_is_idempotent(body);
}

/// Outside the fields `keys`, every entry of `es1` has an entry in `es2`
/// with the same key that `text` renders alike, and the other way round.
pub open spec fn agree_outside(
    es1: Seq<(Yaml, Yaml)>,
    es2: Seq<(Yaml, Yaml)>,
    keys: Seq<Seq<char>>,
    text: spec_fn((Yaml, Yaml)) -> Result<Seq<char>, Seq<char>>,
) -> bool {
    &&& forall|i: int|
        0 <= i < es1.len() && none_of(#[trigger] es1[i].0, keys) ==> exists|j: int|
            0 <= j < es2.len() && #[trigger] es2[j].0 == es1[i].0 && text(es2[j]) == text(es1[i])
    &&& forall|j: int|
        0 <= j < es2.len() && none_of(#[trigger] es2[j].0, keys) ==> exists|i: int|
            0 <= i < es1.len() && #[trigger] es1[i].0 == es2[j].0 && text(es1[i]) == text(es2[j])
}

proof fn lemma_projected_set(es: Seq<(Yaml, Yaml)>, keys: Seq<Seq<char>>)
    requires
        es.len() <= usize::MAX,
        unique_keys(es),
    ensures
        in_range(projected_positions(es, keys), es.len() as int),
        distinct(projected_positions(es, keys)),
        forall|x: usize|
            #![trigger projected_positions(es, keys).contains(x)]
            projected_positions(es, keys).contains(x) <==> (x < es.len() && none_of(es[x as int].0, keys)),
{
    lemma_all_positions(es.len());
    lemma_projected_valid(es, keys);
    lemma_removed_all_set(es, all_positions(es.len()), keys);
}

/// Some entry listed by `f` has key `k` and renders as `t`.
pub open spec fn listed_with(
    es: Seq<(Yaml, Yaml)>,
    f: Seq<usize>,
    k: Yaml,
    t: Result<Seq<char>, Seq<char>>,
    text: spec_fn((Yaml, Yaml)) -> Result<Seq<char>, Seq<char>>,
) -> bool {
    exists|q: int| #![trigger f[q]] 0 <= q < f.len() && es[f[q] as int].0 == k && text(es[f[q] as int]) == t
}

/// Every entry listed by `f1` has a partner listed by `f2` with the same
/// key that `text` renders alike.
pub open spec fn partnered(
    es1: Seq<(Yaml, Yaml)>,
    f1: Seq<usize>,
    es2: Seq<(Yaml, Yaml)>,
    f2: Seq<usize>,
    text: spec_fn((Yaml, Yaml)) -> Result<Seq<char>, Seq<char>>,
) -> bool {
    forall|q: int|
        #![trigger f1[q]]
        0 <= q < f1.len() ==> listed_with(es2, f2, es1[f1[q] as int].0, text(es1[f1[q] as int]), text)
}

proof fn lemma_partnered(
    es1: Seq<(Yaml, Yaml)>,
    es2: Seq<(Yaml, Yaml)>,
    keys: Seq<Seq<char>>,
    text: spec_fn((Yaml, Yaml)) -> Result<Seq<char>, Seq<char>>,
)
    requires
        es1.len() <= usize::MAX,
        es2.len() <= usize::MAX,
        unique_keys(es1),
        unique_keys(es2),
        forall|i: int|
            0 <= i < es1.len() && none_of(#[trigger] es1[i].0, keys) ==> exists|j: int|
                0 <= j < es2.len() && #[trigger] es2[j].0 == es1[i].0 && text(es2[j]) == text(es1[i]),
    ensures
        partnered(es1, projected_positions(es1, keys), es2, projected_positions(es2, keys), text),
{
    let f1 = projected_positions(es1, keys);
    let f2 = projected_positions(es2, keys);
    lemma_projected_set(es1, keys);
    lemma_projected_set(es2, keys);
    assert forall|q: int| #![trigger f1[q]] 0 <= q < f1.len() implies listed_with(
        es2,
        f2,
        es1[f1[q] as int].0,
        text(es1[f1[q] as int]),
        text,
    ) by {
        let x = f1[q];
        assert(f1.contains(x));
        assert(none_of(es1[x as int].0, keys));
        let j = choose|j: int| 0 <= j < es2.len() && #[trigger] es2[j].0 == es1[x as int].0 && text(es2[j]) == text(es1[x as int]);
        assert(none_of(es2[j].0, keys));
        assert(f2.contains(j as usize));
        let q2 = choose|q2: int| 0 <= q2 < f2.len() && f2[q2] == j as usize;
        assert(es2[f2[q2] as int].0 == es1[f1[q] as int].0);
    }
}

proof fn lemma_matched_members(
    es1: Seq<(Yaml, Yaml)>,
    f1: Seq<usize>,
    es2: Seq<(Yaml, Yaml)>,
    f2: Seq<usize>,
    text: spec_fn((Yaml, Yaml)) -> Result<Seq<char>, Seq<char>>,
    r1: spec_fn(int, Yaml) -> Result<Seq<char>, Seq<char>>,
    r2: spec_fn(int, Yaml) -> Result<Seq<char>, Seq<char>>,
)
    requires
        in_range(f1, es1.len() as int),
        distinct(f1),
        unique_keys(es1),
        in_range(f2, es2.len() as int),
        distinct(f2),
        unique_keys(es2),
        renders_as(es1, f1, r1, text),
        renders_as(es2, f2, r2, text),
        partnered(es1, f1, es2, f2, text),
        partnered(es2, f2, es1, f1, text),
    ensures
        members_at(es1, f1, f1.len() as int, r1) is Ok <==> members_at(es2, f2, f2.len() as int, r2) is Ok,
        members_at(es1, f1, f1.len() as int, r1) is Ok ==> members_at(es1, f1, f1.len() as int, r1) == members_at(
            es2,
            f2,
            f2.len() as int,
            r2,
        ),
{
    lemma_members_set(es1, f1, f1.len() as int, r1, text);
    lemma_members_set(es2, f2, f2.len() as int, r2, text);
    if forall|q: int| 0 <= q < f1.len() ==> #[trigger] entry_ok(text, es1[f1[q] as int]) {
        assert forall|q2: int| 0 <= q2 < f2.len() implies #[trigger] entry_ok(text, es2[f2[q2] as int]) by {
            assert(listed_with(es1, f1, es2[f2[q2] as int].0, text(es2[f2[q2] as int]), text));
            let q = choose|q: int|
                #![trigger f1[q]]
                0 <= q < f1.len() && es1[f1[q] as int].0 == es2[f2[q2] as int].0 && text(es1[f1[q] as int]) == text(
                    es2[f2[q2] as int],
                );
            assert(entry_ok(text, es1[f1[q] as int]));
        }
    }
    if forall|q2: int| 0 <= q2 < f2.len() ==> #[trigger] entry_ok(text, es2[f2[q2] as int]) {
        assert forall|q: int| 0 <= q < f1.len() implies #[trigger] entry_ok(text, es1[f1[q] as int]) by {
            assert(listed_with(es2, f2, es1[f1[q] as int].0, text(es1[f1[q] as int]), text));
            let q2 = choose|q2: int|
                #![trigger f2[q2]]
                0 <= q2 < f2.len() && es2[f2[q2] as int].0 == es1[f1[q] as int].0 && text(es2[f2[q2] as int]) == text(
                    es1[f1[q] as int],
                );
            assert(entry_ok(text, es2[f2[q2] as int]));
        }
    }
    if let Ok(ms1) = members_at(es1, f1, f1.len() as int, r1) {
        let ms2 = members_at(es2, f2, f2.len() as int, r2)->Ok_0;
        assert forall|x: (Seq<char>, Seq<char>)| ms1.contains(x) <==> ms2.contains(x) by {
            if ms1.contains(x) {
                let q = choose|q: int| 0 <= q < f1.len() && x == #[trigger] entry_member(text, es1[f1[q] as int]);
                assert(listed_with(es2, f2, es1[f1[q] as int].0, text(es1[f1[q] as int]), text));
                let q2 = choose|q2: int|
                    #![trigger f2[q2]]
                    0 <= q2 < f2.len() && es2[f2[q2] as int].0 == es1[f1[q] as int].0 && text(es2[f2[q2] as int])
                        == text(es1[f1[q] as int]);
                assert(x == entry_member(text, es2[f2[q2] as int]));
            }
            if ms2.contains(x) {
                let q2 = choose|q2: int| 0 <= q2 < f2.len() && x == #[trigger] entry_member(text, es2[f2[q2] as int]);
                assert(listed_with(es1, f1, es2[f2[q2] as int].0, text(es2[f2[q2] as int]), text));
                let q = choose|q: int|
                    #![trigger f1[q]]
                    0 <= q < f1.len() && es1[f1[q] as int].0 == es2[f2[q2] as int].0 && text(es1[f1[q] as int])
                        == text(es2[f2[q2] as int]);
                assert(x == entry_member(text, es1[f1[q] as int]));
            }
        }
        lemma_sorted_unique(ms1, ms2);
    }
}

proof fn lemma_agree_members(
    es1: Seq<(Yaml, Yaml)>,
    es2: Seq<(Yaml, Yaml)>,
    keys: Seq<Seq<char>>,
    text: spec_fn((Yaml, Yaml)) -> Result<Seq<char>, Seq<char>>,
    r1: spec_fn(int, Yaml) -> Result<Seq<char>, Seq<char>>,
    r2: spec_fn(int, Yaml) -> Result<Seq<char>, Seq<char>>,
)
    requires
        es1.len() <= usize::MAX,
        es2.len() <= usize::MAX,
        unique_keys(es1),
        unique_keys(es2),
        agree_outside(es1, es2, keys, text),
        renders_as(es1, projected_positions(es1, keys), r1, text),
        renders_as(es2, projected_positions(es2, keys), r2, text),
    ensures
        members_at(es1, projected_positions(es1, keys), projected_positions(es1, keys).len() as int, r1) is Ok
            <==> members_at(es2, projected_positions(es2, keys), projected_positions(es2, keys).len() as int, r2) is Ok,
        members_at(es1, projected_positions(es1, keys), projected_positions(es1, keys).len() as int, r1) is Ok
            ==> members_at(es1, projected_positions(es1, keys), projected_positions(es1, keys).len() as int, r1)
            == members_at(es2, projected_positions(es2, keys), projected_positions(es2, keys).len() as int, r2),
{
    lemma_partnered(es1, es2, keys, text);
    lemma_partnered(es2, es1, keys, text);
    lemma_projected_valid(es1, keys);
    lemma_projected_valid(es2, keys);
    lemma_matched_members(
        es1,
        projected_positions(es1, keys),
        es2,
        projected_positions(es2, keys),
        text,
        r1,
        r2,
    );
}

/// A claim's hash projection, and so its semantic hash, depends only on its
/// entries outside `semantic_hash`, `lifecycle` and `freshness`: two claims
/// with distinct keys whose other entries have the same keys and render
/// alike (equal values, for instance) project alike, whatever
/// administrative fields either has, where they stand and what they hold.
pub proof fn law_claim_hash_depends_only_on_semantic_fields(c1: Yaml, c2: Yaml)
    requires
        c1 is Mapping,
        c2 is Mapping,
        unique_keys(c1->Mapping_0@),
        unique_keys(c2->Mapping_0@),
        c1->Mapping_0@.len() <= usize::MAX,
        c2->Mapping_0@.len() <= usize::MAX,
        agree_outside(c1->Mapping_0@, c2->Mapping_0@, claim_keys(), claim_entry_text()),
    ensures
        claim_json(c1) is Ok <==> claim_json(c2) is Ok,
        claim_json(c1) is Ok ==> claim_json(c2) == claim_json(c1),
        claim_json(c1) is Ok ==> claim_hash_spec(c2) == claim_hash_spec(c1),
{
    let es1 = c1->Mapping_0@;
    let es2 = c2->Mapping_0@;
    assert(renders_as(es1, projected_positions(es1, claim_keys()), plain_render(), claim_entry_text()));
    assert(renders_as(es2, projected_positions(es2, claim_keys()), plain_render(), claim_entry_text()));
    lemma_agree_members(es1, es2, claim_keys(), claim_entry_text(), plain_render(), plain_render());
}

/// Two claims project alike: they are equal, or they are mappings with
/// distinct keys that agree outside their administrative fields.
pub open spec fn claims_correspond(c1: Yaml, c2: Yaml) -> bool {
    ||| c1 == c2
    ||| {
        &&& c1 is Mapping
        &&& c2 is Mapping
        &&& unique_keys(c1->Mapping_0@)
        &&& unique_keys(c2->Mapping_0@)
        &&& c1->Mapping_0@.len() <= usize::MAX
        &&& c2->Mapping_0@.len() <= usize::MAX
        &&& agree_outside(c1->Mapping_0@, c2->Mapping_0@, claim_keys(), claim_entry_text())
    }
}

/// Two claims lists hold corresponding claims, one for one.
#[verifier::opaque]
pub open spec fn claims_agree(v1: Yaml, v2: Yaml) -> bool {
    &&& v1 is List
    &&& v2 is List
    &&& v1->List_0@.len() == v2->List_0@.len()
    &&& forall|k: int| 0 <= k < v1->List_0@.len() ==> claims_correspond(#[trigger] v1->List_0@[k], v2->List_0@[k])
}

proof fn lemma_claim_texts_agree(items1: Seq<Yaml>, items2: Seq<Yaml>, k: int)
    requires
        items1.len() == items2.len(),
        forall|j: int| 0 <= j < items1.len() ==> claims_correspond(#[trigger] items1[j], items2[j]),
        claim_texts(items1, k) is Ok,
    ensures
        claim_texts(items2, k) == claim_texts(items1, k),
    decreases k,
{
    if k > 0 && k <= items1.len() {
        lemma_claim_texts_agree(items1, items2, k - 1);
        let c1 = items1[k - 1];
        let c2 = items2[k - 1];
        assert(claims_correspond(c1, c2));
        if c1 != c2 {
            law_claim_hash_depends_only_on_semantic_fields(c1, c2);
        }
    }
}

proof fn lemma_claims_list_agree(v1: Yaml, v2: Yaml)
    requires
        claims_agree(v1, v2),
        claims_list_text(v1) is Ok,
    ensures
        claims_list_text(v2) == claims_list_text(v1),
{
    reveal(claims_agree);
    let items1 = v1->List_0@;
    let items2 = v2->List_0@;
    lemma_claim_texts_agree(items1, items2, items1.len() as int);
}

/// Two front-matter entries project alike: their values are equal, or they
/// are `claims` lists whose claims correspond.
pub open spec fn entries_correspond(e1: (Yaml, Yaml), e2: (Yaml, Yaml)) -> bool {
    e1.1 == e2.1 || (key_is(e1.0, "claims"@) && claims_agree(e1.1, e2.1))
}

/// Outside the administrative fields, every entry of `es1` has an entry of
/// `es2` with the same key that corresponds to it, and the other way round.
pub open spec fn objects_agree(es1: Seq<(Yaml, Yaml)>, es2: Seq<(Yaml, Yaml)>) -> bool {
    &&& forall|i: int|
        0 <= i < es1.len() && none_of(#[trigger] es1[i].0, object_keys()) ==> exists|j: int|
            0 <= j < es2.len() && #[trigger] es2[j].0 == es1[i].0 && entries_correspond(es1[i], es2[j])
    &&& forall|j: int|
        0 <= j < es2.len() && none_of(#[trigger] es2[j].0, object_keys()) ==> exists|i: int|
            0 <= i < es1.len() && #[trigger] es1[i].0 == es2[j].0 && entries_correspond(es1[i], es2[j])
}

proof fn lemma_ok_entries(es: Seq<(Yaml, Yaml)>)
    requires
        es.len() <= usize::MAX,
        unique_keys(es),
        object_json_entries(es) is Ok,
    ensures
        forall|i: int|
            0 <= i < es.len() && none_of(#[trigger] es[i].0, object_keys()) ==> entry_ok(object_entry_text(), es[i]),
{
    let f = projected_positions(es, object_keys());
    lemma_projected_set(es, object_keys());
    lemma_value_render(es, f);
    lemma_members_set(es, f, f.len() as int, value_render(key_position(es, f, "claims"@)), object_entry_text());
    assert forall|i: int| 0 <= i < es.len() && none_of(#[trigger] es[i].0, object_keys()) implies entry_ok(
        object_entry_text(),
        es[i],
    ) by {
        assert(f.contains(i as usize));
        let q = choose|q: int| 0 <= q < f.len() && f[q] == i as usize;
        assert(entry_ok(object_entry_text(), es[f[q] as int]));
    }
}

proof fn lemma_corresponding_text(e1: (Yaml, Yaml), e2: (Yaml, Yaml))
    requires
        e1.0 == e2.0,
        entries_correspond(e1, e2),
        entry_ok(object_entry_text(), e1),
    ensures
        object_entry_text()(e2) == object_entry_text()(e1),
{
    if e1.1 != e2.1 {
        lemma_claims_list_agree(e1.1, e2.1);
    }
}

proof fn lemma_objects_agree_forward(es1: Seq<(Yaml, Yaml)>, es2: Seq<(Yaml, Yaml)>)
    requires
        forall|i: int|
            0 <= i < es1.len() && none_of(#[trigger] es1[i].0, object_keys()) ==> exists|j: int|
                0 <= j < es2.len() && #[trigger] es2[j].0 == es1[i].0 && entries_correspond(es1[i], es2[j]),
        forall|i: int|
            0 <= i < es1.len() && none_of(#[trigger] es1[i].0, object_keys()) ==> entry_ok(object_entry_text(), es1[i]),
    ensures
        forall|i: int|
            0 <= i < es1.len() && none_of(#[trigger] es1[i].0, object_keys()) ==> exists|j: int|
                0 <= j < es2.len() && #[trigger] es2[j].0 == es1[i].0 && object_entry_text()(es2[j])
                    == object_entry_text()(es1[i]),
{
    assert forall|i: int| 0 <= i < es1.len() && none_of(#[trigger] es1[i].0, object_keys()) implies exists|j: int|
        0 <= j < es2.len() && #[trigger] es2[j].0 == es1[i].0 && object_entry_text()(es2[j]) == object_entry_text()(
            es1[i],
        ) by {
        let j = choose|j: int| 0 <= j < es2.len() && #[trigger] es2[j].0 == es1[i].0 && entries_correspond(es1[i], es2[j]);
        lemma_corresponding_text(es1[i], es2[j]);
    }
}

proof fn lemma_objects_agree_backward(es1: Seq<(Yaml, Yaml)>, es2: Seq<(Yaml, Yaml)>)
    requires
        forall|j: int|
            0 <= j < es2.len() && none_of(#[trigger] es2[j].0, object_keys()) ==> exists|i: int|
                0 <= i < es1.len() && #[trigger] es1[i].0 == es2[j].0 && entries_correspond(es1[i], es2[j]),
        forall|i: int|
            0 <= i < es1.len() && none_of(#[trigger] es1[i].0, object_keys()) ==> entry_ok(object_entry_text(), es1[i]),
    ensures
        forall|j: int|
            0 <= j < es2.len() && none_of(#[trigger] es2[j].0, object_keys()) ==> exists|i: int|
                0 <= i < es1.len() && #[trigger] es1[i].0 == es2[j].0 && object_entry_text()(es1[i])
                    == object_entry_text()(es2[j]),
{
    assert forall|j: int| 0 <= j < es2.len() && none_of(#[trigger] es2[j].0, object_keys()) implies exists|i: int|
        0 <= i < es1.len() && #[trigger] es1[i].0 == es2[j].0 && object_entry_text()(es1[i]) == object_entry_text()(
            es2[j],
        ) by {
        let i = choose|i: int| 0 <= i < es1.len() && #[trigger] es1[i].0 == es2[j].0 && entries_correspond(es1[i], es2[j]);
        assert(none_of(es1[i].0, object_keys()));
        lemma_corresponding_text(es1[i], es2[j]);
    }
}

proof fn lemma_objects_agree_outside(es1: Seq<(Yaml, Yaml)>, es2: Seq<(Yaml, Yaml)>)
    requires
        es1.len() <= usize::MAX,
        unique_keys(es1),
        objects_agree(es1, es2),
        object_json_entries(es1) is Ok,
    ensures
        agree_outside(es1, es2, object_keys(), object_entry_text()),
{
    lemma_ok_entries(es1);
    lemma_objects_agree_forward(es1, es2);
    lemma_objects_agree_backward(es1, es2);
}

/// An object's hash projection depends only on its entries outside its
/// administrative fields (`created_at`, `updated_at`, `generated`,
/// `verified`, `semantic_hash`, `lifecycle`, `freshness`) and, in its
/// claims, outside theirs (`semantic_hash`, `lifecycle`, `freshness`):
/// front matter with distinct keys that agrees with projecting front matter
/// on everything else projects to the same text, whatever administrative
/// fields either has, where they stand and what they hold.
pub proof fn law_object_projection_depends_only_on_semantic_fields(es1: Seq<(Yaml, Yaml)>, es2: Seq<(Yaml, Yaml)>)
    requires
        es1.len() <= usize::MAX,
        es2.len() <= usize::MAX,
        unique_keys(es1),
        unique_keys(es2),
        objects_agree(es1, es2),
        object_json_entries(es1) is Ok,
    ensures
        object_json_entries(es2) == object_json_entries(es1),
{
    lemma_objects_agree_outside(es1, es2);
    let f1 = projected_positions(es1, object_keys());
    let f2 = projected_positions(es2, object_keys());
    lemma_projected_valid(es1, object_keys());
    lemma_projected_valid(es2, object_keys());
    lemma_value_render(es1, f1);
    lemma_value_render(es2, f2);
    lemma_agree_members(
        es1,
        es2,
        object_keys(),
        object_entry_text(),
        value_render(key_position(es1, f1, "claims"@)),
        value_render(key_position(es2, f2, "claims"@)),
    );
}

/// An object's semantic hash depends only on its body and on its front
/// matter outside the administrative fields of the object and of its
/// claims (see `law_object_projection_depends_only_on_semantic_fields`).
pub proof fn law_object_hash_depends_only_on_semantic_fields(m1: Yaml, m2: Yaml, body: Seq<char>)
    requires
        m1 is Mapping,
        m2 is Mapping,
        m1->Mapping_0@.len() <= usize::MAX,
        m2->Mapping_0@.len() <= usize::MAX,
        unique_keys(m1->Mapping_0@),
        unique_keys(m2->Mapping_0@),
        objects_agree(m1->Mapping_0@, m2->Mapping_0@),
        object_json(m1) is Ok,
    ensures
        object_json(m2) == object_json(m1),
        object_hash_spec(m2, body) == object_hash_spec(m1, body),
{
    law_object_projection_depends_only_on_semantic_fields(m1->Mapping_0@, m2->Mapping_0@);
}

} // verus!
