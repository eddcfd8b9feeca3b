//! Canonical JSON: the compact JSON text of a YAML value with the keys of
//! every mapping in sorted order, which semantic hashes are computed over.

use vstd::prelude::*;

use crate::okf::hash::hex_digit;
use crate::okf::registries::{text_less, text_less_exec};
use crate::okf::time::signed_decimal;
use crate::okf::yaml::Yaml;
use crate::text::{decimal, push_decimal, push_str_chars, str_chars, str_eq, string_from_chars};

verus! {

/// How JSON writes one character inside a string: quote, backslash and
/// control characters escaped, short forms where JSON has them.
pub open spec fn json_escape(c: char) -> Seq<char> {
    if c == '"' {
        seq!['\\', '"']
    } else if c == '\\' {
        seq!['\\', '\\']
    } else if c == '\x08' {
        seq!['\\', 'b']
    } else if c == '\t' {
        seq!['\\', 't']
    } else if c == '\n' {
        seq!['\\', 'n']
    } else if c == '\x0c' {
        seq!['\\', 'f']
    } else if c == '\r' {
        seq!['\\', 'r']
    } else if (c as u32) < 32 {
        seq!['\\', 'u', '0', '0', hex_digit((c as u32 / 16) as nat), hex_digit((c as u32 % 16) as nat)]
    } else {
        seq![c]
    }
}

/// The escaped characters of `s`.
pub open spec fn escaped(s: Seq<char>) -> Seq<char>
    decreases s.len(),
{
    if s.len() == 0 {
        Seq::empty()
    } else {
        escaped(s.drop_last()) + json_escape(s.last())
    }
}

/// The JSON string literal of `s`.
pub open spec fn json_string(s: Seq<char>) -> Seq<char> {
    seq!['"'] + escaped(s) + seq!['"']
}

/// The parts separated by commas.
pub open spec fn joined(parts: Seq<Seq<char>>) -> Seq<char>
    decreases parts.len(),
{
    if parts.len() == 0 {
        Seq::empty()
    } else if parts.len() == 1 {
        parts[0]
    } else {
        joined(parts.drop_last()) + seq![','] + parts.last()
    }
}

/// Inserts the member `(k, v)` into members sorted by key; a member with the
/// same key has its value replaced.
pub open spec fn member_insert(s: Seq<(Seq<char>, Seq<char>)>, k: Seq<char>, v: Seq<char>) -> Seq<(Seq<char>, Seq<char>)>
    decreases s.len(),
{
    if s.len() == 0 {
        seq![(k, v)]
    } else if s[0].0 == k {
        seq![(k, v)] + s.drop_first()
    } else if text_less(k, s[0].0) {
        seq![(k, v)] + s
    } else {
        seq![s[0]] + member_insert(s.drop_first(), k, v)
    }
}

/// The JSON text of an object member.
pub open spec fn member_text(m: (Seq<char>, Seq<char>)) -> Seq<char> {
    json_string(m.0) + seq![':'] + m.1
}

/// The JSON text of an object with the given members, in their order.
pub open spec fn mapping_text(members: Seq<(Seq<char>, Seq<char>)>) -> Seq<char> {
    seq!['{'] + joined(members.map_values(|m: (Seq<char>, Seq<char>)| member_text(m))) + seq!['}']
}

/// The view of members held as strings.
pub open spec fn members_view(v: Seq<(String, String)>) -> Seq<(Seq<char>, Seq<char>)> {
    v.map_values(|m: (String, String)| (m.0@, m.1@))
}

/// The canonical JSON text of a YAML value: `null`, booleans, integers in
/// decimal, floating-point numbers as they were rendered, strings escaped,
/// sequences in order and mappings with their string keys sorted. A mapping
/// key that is not a string and a tagged value are errors.
pub open spec fn canonical(y: Yaml) -> Result<Seq<char>, Seq<char>>
    decreases y, 0int,
{
    match y {
        Yaml::Null => Ok("null"@),
        Yaml::Bool(b) => Ok(
            if b {
                "true"@
            } else {
                "false"@
            },
        ),
        Yaml::Int(i) => Ok(signed_decimal(i as int)),
        Yaml::UInt(u) => Ok(decimal(u as nat)),
        Yaml::Float(t) => Ok(t@),
        Yaml::Str(s) => Ok(json_string(s@)),
        Yaml::List(v) => match canonical_items(v@, v@.len() as int) {
            Ok(parts) => Ok(seq!['['] + joined(parts) + seq![']']),
            Err(e) => Err(e),
        },
        Yaml::Mapping(entries) => match canonical_members(entries@, entries@.len() as int) {
            Ok(members) => Ok(mapping_text(members)),
            Err(e) => Err(e),
        },
        Yaml::Tagged(_, _) => Err("tagged YAML values are not supported"@),
    }
}

/// The canonical texts of the first `k` items, or the first error.
pub open spec fn canonical_items(items: Seq<Yaml>, k: int) -> Result<Seq<Seq<char>>, Seq<char>>
    decreases items, k,
{
    if k <= 0 || k > items.len() {
        Ok(Seq::empty())
    } else {
        match canonical_items(items, k - 1) {
            Err(e) => Err(e),
            Ok(prev) => match canonical(items[k - 1]) {
                Err(e) => Err(e),
                Ok(t) => Ok(prev.push(t)),
            },
        }
    }
}

/// The sorted members of the first `k` entries, or the first error.
pub open spec fn canonical_members(entries: Seq<(Yaml, Yaml)>, k: int) -> Result<Seq<(Seq<char>, Seq<char>)>, Seq<char>>
    decreases entries, k,
{
    if k <= 0 || k > entries.len() {
        Ok(Seq::empty())
    } else {
        match canonical_members(entries, k - 1) {
            Err(e) => Err(e),
            Ok(prev) => match entries[k - 1].0 {
                Yaml::Str(key) => match canonical(entries[k - 1].1) {
                    Err(e) => Err(e),
                    Ok(t) => Ok(member_insert(prev, key@, t)),
                },
                _ => Err("semantic YAML mapping keys must be strings"@),
            },
        }
    }
}

/// The view of a text result.
pub open spec fn text_result(r: Result<String, String>) -> Result<Seq<char>, Seq<char>> {
    match r {
        Ok(s) => Ok(s@),
        Err(e) => Err(e@),
    }
}

fn json_escape_exec(c: char, out: &mut Vec<char>)
    ensures
        final(out)@ == old(out)@ + json_escape(c),
{
    if c == '"' {
        out.push('\\');
        out.push('"');
    } else if c == '\\' {
        out.push('\\');
        out.push('\\');
    } else if c == '\x08' {
        out.push('\\');
        out.push('b');
    } else if c == '\t' {
        out.push('\\');
        out.push('t');
    } else if c == '\n' {
        out.push('\\');
        out.push('n');
    } else if c == '\x0c' {
        out.push('\\');
        out.push('f');
    } else if c == '\r' {
        out.push('\\');
        out.push('r');
    } else if (c as u32) < 32 {
        let n = c as u32;
        let hi: u8 = (n / 16) as u8;
        let lo: u8 = (n % 16) as u8;
        out.push('\\');
        out.push('u');
        out.push('0');
        out.push('0');
        out.push(if hi < 10 { (hi + 48) as char } else { (hi + 87) as char });
        out.push(if lo < 10 { (lo + 48) as char } else { (lo + 87) as char });
    } else {
        out.push(c);
    }
}

/// Appends the JSON string literal of `s`.
pub fn push_json_string(out: &mut Vec<char>, s: &str)
    ensures
        final(out)@ == old(out)@ + json_string(s@),
{
    let cs = str_chars(s);
    let ghost start = out@;
    out.push('"');
    let mut i: usize = 0;
    while i < cs.len()
        invariant
            cs@ == s@,
            i <= cs.len(),
            out@ == start + seq!['"'] + escaped(cs@.take(i as int)),
        decreases cs.len() - i,
    {
        assert(cs@.take(i + 1).drop_last() =~= cs@.take(i as int));
        json_escape_exec(cs[i], out);
        i = i + 1;
    }
    assert(cs@.take(cs.len() as int) =~= cs@);
    out.push('"');
    assert(out@ =~= start + json_string(s@));
}

proof fn lemma_joined_push(parts: Seq<Seq<char>>, t: Seq<char>)
    ensures
        joined(parts.push(t)) == if parts.len() == 0 {
            t
        } else {
            joined(parts) + seq![','] + t
        },
{
    assert(parts.push(t).drop_last() =~= parts);
}

/// Inserts a member into members sorted by key, replacing an equal key.
pub(crate) fn insert_member(members: &mut Vec<(String, String)>, k: String, v: String)
    ensures
        members_view(final(members)@) == member_insert(members_view(old(members)@), k@, v@),
{
    let ghost s = members_view(members@);
    let mut p: usize = 0;
    while p < members.len()
        invariant
            s == members_view(members@),
            p <= members.len(),
            forall|j: int| 0 <= j < p ==> #[trigger] s[j].0 != k@ && !text_less(k@, s[j].0),
        ensures
            p <= members.len(),
            forall|j: int| 0 <= j < p ==> #[trigger] s[j].0 != k@ && !text_less(k@, s[j].0),
            p < members.len() ==> s[p as int].0 == k@ || text_less(k@, s[p as int].0),
        decreases members.len() - p,
    {
        assert(s[p as int] == (members@[p as int].0@, members@[p as int].1@));
        let same = str_eq(members[p].0.as_str(), k.as_str());
        let before = text_less_exec(k.as_str(), members[p].0.as_str());
        if same || before {
            break;
        }
        p = p + 1;
    }
    proof {
        lemma_member_insert(s, k@, v@, p as int);
    }
    let ghost kv = (k@, v@);
    if p < members.len() {
        assert(s[p as int] == (members@[p as int].0@, members@[p as int].1@));
    }
    if p < members.len() && str_eq(members[p].0.as_str(), k.as_str()) {
        members.set(p, (k, v));
        assert(members_view(members@) =~= s.take(p as int) + seq![kv] + s.skip(p + 1));
    } else {
        members.insert(p, (k, v));
        assert(members_view(members@) =~= s.take(p as int) + seq![kv] + s.skip(p as int));
    }
}

proof fn lemma_member_insert(s: Seq<(Seq<char>, Seq<char>)>, k: Seq<char>, v: Seq<char>, p: int)
    requires
        0 <= p <= s.len(),
        forall|j: int| 0 <= j < p ==> #[trigger] s[j].0 != k && !text_less(k, s[j].0),
        p < s.len() ==> s[p].0 == k || text_less(k, s[p].0),
    ensures
        p < s.len() && s[p].0 == k ==> member_insert(s, k, v) == s.take(p) + seq![(k, v)] + s.skip(p + 1),
        !(p < s.len() && s[p].0 == k) ==> member_insert(s, k, v) == s.take(p) + seq![(k, v)] + s.skip(p),
    decreases p,
{
    if p == 0 {
        if s.len() == 0 {
            assert(s.take(0) + seq![(k, v)] + s.skip(0) =~= seq![(k, v)]);
        } else if s[0].0 == k {
            assert(s.take(0) + seq![(k, v)] + s.skip(1) =~= seq![(k, v)] + s.drop_first());
        } else {
            assert(s.take(0) + seq![(k, v)] + s.skip(0) =~= seq![(k, v)] + s);
        }
    } else {
        let rest = s.drop_first();
        assert(s[0].0 != k && !text_less(k, s[0].0));
        assert forall|j: int| 0 <= j < p - 1 implies #[trigger] rest[j].0 != k && !text_less(k, rest[j].0) by {
            assert(rest[j] == s[j + 1]);
        }
        if p - 1 < rest.len() {
            assert(rest[p - 1] == s[p]);
        }
        lemma_member_insert(rest, k, v, p - 1);
        if p < s.len() && s[p].0 == k {
            assert(seq![s[0]] + (rest.take(p - 1) + seq![(k, v)] + rest.skip(p)) =~= s.take(p) + seq![(k, v)] + s.skip(p + 1));
        } else {
            assert(seq![s[0]] + (rest.take(p - 1) + seq![(k, v)] + rest.skip(p - 1)) =~= s.take(p) + seq![(k, v)] + s.skip(p));
        }
    }
}

proof fn lemma_items_err(items: Seq<Yaml>, k: int, n: int)
    requires
        0 <= k <= n <= items.len(),
        canonical_items(items, k) is Err,
    ensures
        canonical_items(items, n) == canonical_items(items, k),
    decreases n - k,
{
    if n > k {
        lemma_items_err(items, k, n - 1);
    }
}

proof fn lemma_members_err(entries: Seq<(Yaml, Yaml)>, k: int, n: int)
    requires
        0 <= k <= n <= entries.len(),
        canonical_members(entries, k) is Err,
    ensures
        canonical_members(entries, n) == canonical_members(entries, k),
    decreases n - k,
{
    if n > k {
        lemma_members_err(entries, k, n - 1);
    }
}

/// The JSON text of an object with the given members, in their order.
pub fn members_text(members: &Vec<(String, String)>) -> (s: String)
    ensures
        s@ == mapping_text(members_view(members@)),
{
    let ghost ms = members_view(members@);
    let ghost texts = ms.map_values(|m: (Seq<char>, Seq<char>)| member_text(m));
    let mut out: Vec<char> = Vec::new();
    out.push('{');
    let mut j: usize = 0;
    while j < members.len()
        invariant
            ms == members_view(members@),
            texts == ms.map_values(|m: (Seq<char>, Seq<char>)| member_text(m)),
            j <= members.len(),
            out@ == seq!['{'] + joined(texts.take(j as int)),
        decreases members.len() - j,
    {
        proof {
            lemma_joined_push(texts.take(j as int), texts[j as int]);
            assert(texts.take(j + 1) =~= texts.take(j as int).push(texts[j as int]));
        }
        if j > 0 {
            out.push(',');
        }
        push_json_string(&mut out, members[j].0.as_str());
        out.push(':');
        push_str_chars(&mut out, members[j].1.as_str());
        assert(ms[j as int] == (members@[j as int].0@, members@[j as int].1@));
        assert(out@ =~= seq!['{'] + joined(texts.take(j + 1)));
        j = j + 1;
    }
    assert(texts.take(members.len() as int) =~= texts);
    out.push('}');
    assert(out@ =~= mapping_text(ms));
    string_from_chars(&out)
}

/// The canonical JSON text of a YAML value, or why it has none.
pub fn canonical_json(y: &Yaml) -> (r: Result<String, String>)
    ensures
        text_result(r) == canonical(*y),
    decreases y,
{
    match y {
        Yaml::Null => Ok("null".to_owned()),
        Yaml::Bool(b) => Ok(if *b { "true".to_owned() } else { "false".to_owned() }),
        Yaml::Int(i) => {
            let mut out: Vec<char> = Vec::new();
            if *i < 0 {
                out.push('-');
                let m: u64 = (-(*i as i128)) as u64;
                assert(m as int == -(*i as int));
                push_decimal(m, &mut out);
                assert(out@ =~= signed_decimal(*i as int));
            } else {
                push_decimal(*i as u64, &mut out);
                assert(out@ =~= signed_decimal(*i as int));
            }
            Ok(string_from_chars(&out))
        },
        Yaml::UInt(u) => {
            let mut out: Vec<char> = Vec::new();
            push_decimal(*u, &mut out);
            Ok(string_from_chars(&out))
        },
        Yaml::Float(t) => Ok(t.clone()),
        Yaml::Str(s) => {
            let mut out: Vec<char> = Vec::new();
            push_json_string(&mut out, s.as_str());
            Ok(string_from_chars(&out))
        },
        Yaml::List(v) => {
            let mut out: Vec<char> = Vec::new();
            out.push('[');
            let mut i: usize = 0;
            while i < v.len()
                invariant
                    *y == Yaml::List(*v),
                    i <= v.len(),
                    canonical_items(v@, i as int) is Ok,
                    out@ == seq!['['] + joined(canonical_items(v@, i as int)->Ok_0),
                decreases v.len() - i,
            {
                let ghost prev = canonical_items(v@, i as int)->Ok_0;
                let r = canonical_json(&v[i]);
                match r {
                    Err(e) => {
                        proof {
                            lemma_items_err(v@, i + 1, v@.len() as int);
                        }
                        return Err(e);
                    },
                    Ok(t) => {
                        proof {
                            lemma_joined_push(prev, t@);
                        }
                        if i > 0 {
                            out.push(',');
                        }
                        push_str_chars(&mut out, t.as_str());
                        assert(out@ =~= seq!['['] + joined(prev.push(t@)));
                    },
                }
                i = i + 1;
            }
            out.push(']');
            assert(out@ =~= seq!['['] + joined(canonical_items(v@, v@.len() as int)->Ok_0) + seq![']']);
            Ok(string_from_chars(&out))
        },
        Yaml::Mapping(entries) => {
            let mut members: Vec<(String, String)> = Vec::new();
            let mut i: usize = 0;
            while i < entries.len()
                invariant
                    *y == Yaml::Mapping(*entries),
                    i <= entries.len(),
                    canonical_members(entries@, i as int) is Ok,
                    members_view(members@) == canonical_members(entries@, i as int)->Ok_0,
                decreases entries.len() - i,
            {
                let key = match &entries[i].0 {
                    Yaml::Str(k) => k.clone(),
                    _ => {
                        proof {
                            lemma_members_err(entries@, i + 1, entries@.len() as int);
                        }
                        return Err("semantic YAML mapping keys must be strings".to_owned());
                    },
                };
                let r = canonical_json(&entries[i].1);
                match r {
                    Err(e) => {
                        proof {
                            lemma_members_err(entries@, i + 1, entries@.len() as int);
                        }
                        return Err(e);
                    },
                    Ok(t) => {
                        insert_member(&mut members, key, t);
                    },
                }
                i = i + 1;
            }
            Ok(members_text(&members))
        },
        Yaml::Tagged(_, _) => Err("tagged YAML values are not supported".to_owned()),
    }
}

} // verus!
