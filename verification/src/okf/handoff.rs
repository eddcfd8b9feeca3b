//! The session handoff note: its required headings and the knowledge-base
//! addresses it mentions.

use vstd::prelude::*;

use crate::okf::body::is_whitespace;
use crate::okf::cli::{okf_address, parse_okf_address};
use crate::okf::contracts::has_claim;
use crate::okf::diagnostics::{contains, contains_str};
use crate::okf::document::SemanticDocument;
use crate::okf::yaml::{field, items, str_field, Yaml};
use crate::text::{concat2, concat4, str_chars, str_eq, string_from_chars};

verus! {

/// The template a new handoff note starts from.
pub const SESSION_HANDOFF_TEMPLATE: &'static str = "# Workstream\n\n## Objective\n\n## Current phase\n\n## Current repository state\n- branch:\n- relevant commit:\n- working-tree changes:\n- tests/status:\n\n## Durable artifacts produced/updated\n\n## Draft durable knowledge awaiting review\n\n## Operational remainder\n\n## Immediate next action\n\n## Relevant primary artifacts\n\n## Verification required before proceeding\n";

/// Where the handoff note lives.
pub const SESSION_HANDOFF_PATH: &'static str = "Keep_LOCAL/SESSION_HANDOFF.md";

/// The headings a handoff note must contain.
pub open spec fn required_headings() -> Seq<Seq<char>> {
    seq![
        "# Workstream"@,
        "## Objective"@,
        "## Current phase"@,
        "## Current repository state"@,
        "## Durable artifacts produced/updated"@,
        "## Draft durable knowledge awaiting review"@,
        "## Operational remainder"@,
        "## Immediate next action"@,
        "## Relevant primary artifacts"@,
        "## Verification required before proceeding"@,
    ]
}

/// `str::split_whitespace`: the maximal runs of non-white-space characters.
pub open spec fn words(s: Seq<char>) -> Seq<Seq<char>>
    decreases s.len(),
{
    if s.len() == 0 {
        Seq::empty()
    } else {
        let r = words(s.drop_last());
        let c = s.last();
        if is_whitespace(c) {
            r
        } else if s.len() >= 2 && !is_whitespace(s[s.len() - 2]) {
            r.update(r.len() - 1, r.last().push(c))
        } else {
            r.push(seq![c])
        }
    }
}

/// The last document whose ID is `id`.
pub open spec fn object_with_id(docs: Seq<SemanticDocument>, id: Seq<char>) -> Option<SemanticDocument>
    decreases docs.len(),
{
    if docs.len() == 0 {
        None
    } else if str_field(docs.last().frontmatter, "id"@) == Some(id) {
        Some(docs.last())
    } else {
        object_with_id(docs.drop_last(), id)
    }
}

/// The messages about one token of the note.
pub open spec fn token_messages(docs: Seq<SemanticDocument>, token: Seq<char>) -> Seq<Seq<char>> {
    match okf_address(token) {
        None => Seq::empty(),
        Some((object_id, claim)) => match object_with_id(docs, object_id) {
            None => seq!["handoff references unknown OKF object: "@ + object_id],
            Some(d) => match claim {
                Some(c) => if !has_claim(items(field(d.frontmatter, "claims"@)), c) {
                    seq!["handoff references unknown claim: "@ + object_id + "#"@ + c]
                } else {
                    Seq::empty()
                },
                None => Seq::empty(),
            },
        },
    }
}

/// The messages about the first `k` tokens.
pub open spec fn tokens_messages(docs: Seq<SemanticDocument>, tokens: Seq<Seq<char>>, k: int) -> Seq<Seq<char>>
    decreases k,
{
    if k <= 0 {
        Seq::empty()
    } else {
        tokens_messages(docs, tokens, k - 1) + token_messages(docs, tokens[k - 1])
    }
}

/// The missing-heading messages for the first `k` required headings.
pub open spec fn heading_messages(content: Seq<char>, k: int) -> Seq<Seq<char>>
    decreases k,
{
    if k <= 0 {
        Seq::empty()
    } else {
        let h = required_headings()[k - 1];
        heading_messages(content, k - 1) + if contains(content, h) {
            Seq::<Seq<char>>::empty()
        } else {
            seq!["missing required heading: "@ + h]
        }
    }
}

/// The problems of a handoff note: missing headings, then every address in
/// it that names an unknown object or an unknown claim of a known object.
pub open spec fn handoff_report(content: Seq<char>, docs: Seq<SemanticDocument>) -> Seq<Seq<char>> {
    let ws = words(content);
    heading_messages(content, 10) + tokens_messages(docs, ws, ws.len() as int)
}

fn split_words(s: &[char]) -> (out: Vec<Vec<char>>)
    ensures
        out@.map_values(|v: Vec<char>| v@) == words(s@),
{
    let mut out: Vec<Vec<char>> = Vec::new();
    let mut cur: Vec<char> = Vec::new();
    let mut in_word = false;
    let mut i: usize = 0;
    while i < s.len()
        invariant
            i <= s.len(),
            in_word == (i > 0 && !is_whitespace(s@[i - 1])),
            in_word ==> out@.map_values(|v: Vec<char>| v@).push(cur@) == words(s@.take(i as int)),
            !in_word ==> out@.map_values(|v: Vec<char>| v@) == words(s@.take(i as int)),
        decreases s.len() - i,
    {
        let ghost prev = s@.take(i as int);
        assert(s@.take(i + 1).drop_last() =~= prev);
        assert(s@.take(i + 1).last() == s@[i as int]);
        let c = s[i];
        let ws = ('\u{9}' <= c && c <= '\u{d}') || c == ' ' || c == '\u{85}' || c == '\u{a0}' || c == '\u{1680}'
            || ('\u{2000}' <= c && c <= '\u{200a}') || c == '\u{2028}' || c == '\u{2029}' || c == '\u{202f}'
            || c == '\u{205f}' || c == '\u{3000}';
        assert(ws == is_whitespace(c));
        if ws {
            if in_word {
                let done = cur;
                out.push(done);
                cur = Vec::new();
            }
            in_word = false;
        } else if in_word {
            proof {
                assert(s@.take(i + 1)[i - 1] == s@[i - 1]);
                let r = words(prev);
                assert(r == out@.map_values(|v: Vec<char>| v@).push(cur@));
            }
            cur.push(c);
            assert(out@.map_values(|v: Vec<char>| v@).push(cur@) =~= words(prev).update(
                words(prev).len() - 1,
                words(prev).last().push(c),
            ));
        } else {
            proof {
                if i >= 1 {
                    assert(s@.take(i + 1)[i - 1] == s@[i - 1]);
                }
            }
            cur = Vec::new();
            cur.push(c);
            assert(out@.map_values(|v: Vec<char>| v@).push(cur@) =~= words(prev).push(seq![c]));
            in_word = true;
        }
        i = i + 1;
    }
    assert(s@.take(s.len() as int) =~= s@);
    if in_word {
        out.push(cur);
    }
    out
}

fn object_with_id_exec<'a>(docs: &'a [SemanticDocument], id: &str) -> (r: Option<&'a SemanticDocument>)
    ensures
        match r {
            Some(d) => object_with_id(docs@, id@) == Some(*d),
            None => object_with_id(docs@, id@) is None,
        },
{
    let mut i: usize = docs.len();
    assert(docs@.take(docs.len() as int) =~= docs@);
    while i > 0
        invariant
            i <= docs.len(),
            object_with_id(docs@, id@) == object_with_id(docs@.take(i as int), id@),
        decreases i,
    {
        let ghost pre = docs@.take(i as int);
        assert(pre.last() == docs@[i - 1]);
        assert(pre.drop_last() =~= docs@.take(i - 1));
        let hit = match docs[i - 1].frontmatter.get_str("id") {
            Some(s) => str_eq(s, id),
            None => false,
        };
        if hit {
            return Some(&docs[i - 1]);
        }
        i = i - 1;
    }
    None
}

fn claim_with_id(claims: Option<&Vec<Yaml>>, id: &str) -> (b: bool)
    ensures
        b == has_claim(match claims { Some(v) => Some(v@), None => None }, id@),
{
    let list = match claims {
        Some(l) => l,
        None => return false,
    };
    let mut i: usize = 0;
    while i < list.len()
        invariant
            (match claims { Some(v) => Some(v@), None => None }) == Some(list@),
            i <= list.len(),
            forall|j: int| 0 <= j < i ==> #[trigger] str_field(list@[j], "id"@) != Some(id@),
        decreases list.len() - i,
    {
        let hit = match list[i].get_str("id") {
            Some(s) => str_eq(s, id),
            None => false,
        };
        if hit {
            assert(str_field(list@[i as int], "id"@) == Some(id@));
            return true;
        }
        i = i + 1;
    }
    false
}

/// The problems of a handoff note with the given content, against the
/// documents of the knowledge base.
pub fn handoff_diagnostics(content: &str, documents: &[SemanticDocument]) -> (ds: Vec<String>)
    ensures
        ds@.map_values(|d: String| d@) == handoff_report(content@, documents@),
{
    let cs = str_chars(content);
    let headings = [
        "# Workstream",
        "## Objective",
        "## Current phase",
        "## Current repository state",
        "## Durable artifacts produced/updated",
        "## Draft durable knowledge awaiting review",
        "## Operational remainder",
        "## Immediate next action",
        "## Relevant primary artifacts",
        "## Verification required before proceeding",
    ];
    let mut out: Vec<String> = Vec::new();
    let mut h: usize = 0;
    while h < 10
        invariant
            cs@ == content@,
            headings@.map_values(|x: &str| x@) == required_headings(),
            h <= 10,
            out@.map_values(|d: String| d@) == heading_messages(content@, h as int),
        decreases 10 - h,
    {
        assert(headings@.map_values(|x: &str| x@)[h as int] == headings@[h as int]@);
        let ghost before = out@.map_values(|d: String| d@);
        if !contains_str(cs.as_slice(), headings[h]) {
            out.push(concat2("missing required heading: ", headings[h]));
        }
        assert(out@.map_values(|d: String| d@) =~= heading_messages(content@, h + 1));
        h = h + 1;
    }
    let ws = split_words(cs.as_slice());
    let ghost wv = ws@.map_values(|v: Vec<char>| v@);
    let ghost head = out@.map_values(|d: String| d@);
    let mut t: usize = 0;
    while t < ws.len()
        invariant
            wv == ws@.map_values(|v: Vec<char>| v@),
            wv == words(content@),
            head == heading_messages(content@, 10),
            t <= ws.len(),
            out@.map_values(|d: String| d@) == head + tokens_messages(documents@, wv, t as int),
        decreases ws.len() - t,
    {
        assert(wv[t as int] == ws@[t as int]@);
        let token = string_from_chars(&ws[t]);
        let ghost before = out@.map_values(|d: String| d@);
        let parsed = parse_okf_address(token.as_str());
        match parsed {
            None => {},
            Some((object_id, claim)) => {
                match object_with_id_exec(documents, object_id.as_str()) {
                    None => {
                        out.push(concat2("handoff references unknown OKF object: ", object_id.as_str()));
                    },
                    Some(d) => {
                        if let Some(c) = &claim {
                            let claims = match d.frontmatter.get("claims") {
                                Some(v) => v.as_seq(),
                                None => None,
                            };
                            if !claim_with_id(claims, c.as_str()) {
                                out.push(concat4("handoff references unknown claim: ", object_id.as_str(), "#", c.as_str()));
                            }
                        }
                    },
                }
            },
        }
        assert(out@.map_values(|d: String| d@) =~= before + token_messages(documents@, wv[t as int]));
        t = t + 1;
    }
    out
}

} // verus!
