//! Command-line arguments and knowledge-base addresses written in prose.

use vstd::prelude::*;

use crate::okf::validate::{is_kebab_char, is_object_type, is_semantic_type};
use crate::text::{
    char_index, concat2, find_char, lemma_trim_by, slice_chars, str_chars, str_eq,
    string_from_chars, trim_by,
};

verus! {

/// The first index of `x` in `s`.
pub open spec fn position(s: Seq<Seq<char>>, x: Seq<char>) -> Option<nat>
    decreases s.len(),
{
    if s.len() == 0 {
        None
    } else if s[0] == x {
        Some(0)
    } else {
        match position(s.drop_first(), x) {
            Some(i) => Some(i + 1),
            None => None,
        }
    }
}

proof fn lemma_position(s: Seq<Seq<char>>, x: Seq<char>, i: int)
    requires
        0 <= i <= s.len(),
        forall|j: int| 0 <= j < i ==> s[j] != x,
    ensures
        i < s.len() && s[i] == x ==> position(s, x) == Some(i as nat),
        i == s.len() ==> position(s, x) is None,
    decreases i,
{
    if i > 0 {
        lemma_position(s.drop_first(), x, i - 1);
    }
}

/// The views of a list of strings.
pub open spec fn views(args: Seq<String>) -> Seq<Seq<char>> {
    args.map_values(|a: String| a@)
}

/// The value given to `option`: nothing when the option is absent, the
/// argument after its first occurrence, or an error when none follows.
pub open spec fn option_value_spec(args: Seq<Seq<char>>, option: Seq<char>) -> Result<
    Option<Seq<char>>,
    Seq<char>,
> {
    match position(args, option) {
        None => Ok(None),
        Some(i) => if i + 1 < args.len() {
            Ok(Some(args[i as int + 1]))
        } else {
            Err(option + " requires a value"@)
        },
    }
}

/// The view of an option lookup's result.
pub open spec fn option_result_view(r: Result<Option<String>, String>) -> Result<
    Option<Seq<char>>,
    Seq<char>,
> {
    match r {
        Ok(Some(v)) => Ok(Some(v@)),
        Ok(None) => Ok(None),
        Err(e) => Err(e@),
    }
}

/// Looks up the value of a command-line option.
pub fn option_value(args: &[String], option: &str) -> (r: Result<Option<String>, String>)
    ensures
        option_result_view(r) == option_value_spec(views(args@), option@),
{
    let ghost vs = views(args@);
    let mut i: usize = 0;
    while i < args.len()
        invariant
            vs == views(args@),
            i <= args.len(),
            forall|j: int| 0 <= j < i ==> vs[j] != option@,
        decreases args.len() - i,
    {
        if str_eq(args[i].as_str(), option) {
            proof { lemma_position(vs, option@, i as int); }
            if i + 1 < args.len() {
                return Ok(Some(args[i + 1].clone()));
            } else {
                return Err(concat2(option, " requires a value"));
            }
        }
        i = i + 1;
    }
    proof { lemma_position(vs, option@, i as int); }
    Ok(None)
}

/// The report format a command was asked for: `text` unless `--format`
/// names one, which must be `text` or `json`.
pub open spec fn output_format_spec(args: Seq<Seq<char>>) -> Result<Seq<char>, Seq<char>> {
    match option_value_spec(args, "--format"@) {
        Err(e) => Err(e),
        Ok(v) => {
            let format = match v {
                Some(f) => f,
                None => "text"@,
            };
            if format != "text"@ && format != "json"@ {
                Err("--format must be text or json"@)
            } else {
                Ok(format)
            }
        },
    }
}

/// Reads and checks the `--format` option.
pub fn output_format(args: &[String]) -> (r: Result<String, String>)
    ensures
        match r {
            Ok(f) => output_format_spec(views(args@)) == Ok::<Seq<char>, Seq<char>>(f@),
            Err(e) => output_format_spec(views(args@)) == Err::<Seq<char>, Seq<char>>(e@),
        },
{
    let format = match option_value(args, "--format") {
        Err(e) => return Err(e),
        Ok(Some(f)) => f,
        Ok(None) => "text".to_owned(),
    };
    if !str_eq(format.as_str(), "text") && !str_eq(format.as_str(), "json") {
        return Err("--format must be text or json".to_owned());
    }
    Ok(format)
}

/// Punctuation that may wrap an address in prose.
pub open spec fn is_address_punctuation(c: char) -> bool {
    c == '`' || c == '[' || c == ']' || c == '(' || c == ')' || c == '{' || c == '}' || c == '<'
        || c == '>' || c == ',' || c == '.' || c == ';' || c == ':' || c == '\'' || c == '"'
}

fn address_punctuation(c: char) -> (b: bool)
    ensures
        b == is_address_punctuation(c),
{
    c == '`' || c == '[' || c == ']' || c == '(' || c == ')' || c == '{' || c == '}' || c == '<'
        || c == '>' || c == ',' || c == '.' || c == ';' || c == ':' || c == '\'' || c == '"'
}

/// A non-empty run of lowercase letters, digits and hyphens.
pub open spec fn address_part(s: Seq<char>) -> bool {
    s.len() > 0 && forall|i: int| 0 <= i < s.len() ==> is_kebab_char(#[trigger] s[i])
}

fn is_address_part(s: &[char]) -> (b: bool)
    ensures
        b == address_part(s@),
{
    if s.len() == 0 {
        return false;
    }
    let mut i: usize = 0;
    while i < s.len()
        invariant
            i <= s.len(),
            forall|j: int| 0 <= j < i ==> is_kebab_char(#[trigger] s@[j]),
        decreases s.len() - i,
    {
        let c = s[i];
        if !(('a' <= c && c <= 'z') || ('0' <= c && c <= '9') || c == '-') {
            return false;
        }
        i = i + 1;
    }
    true
}

/// A knowledge-base address `type.slug` or `type.slug#claim` inside a token,
/// once wrapping punctuation is stripped: the object ID and the claim ID.
pub open spec fn okf_address(token: Seq<char>) -> Option<(Seq<char>, Option<Seq<char>>)> {
    let t = trim_by(token, |c: char| is_address_punctuation(c));
    let (object_id, claim_id) = match char_index(t, '#') {
        Some(h) => (t.take(h as int), Some(t.skip(h as int + 1))),
        None => (t, None),
    };
    match char_index(object_id, '.') {
        None => None,
        Some(d) => {
            let kind_name = object_id.take(d as int);
            let slug = object_id.skip(d as int + 1);
            if !is_object_type(kind_name) || !address_part(slug) {
                None
            } else {
                match claim_id {
                    Some(c) => if address_part(c) {
                        Some((object_id, Some(c)))
                    } else {
                        None
                    },
                    None => Some((object_id, None)),
                }
            }
        },
    }
}

/// The view of a parsed address.
pub open spec fn address_view(r: Option<(String, Option<String>)>) -> Option<
    (Seq<char>, Option<Seq<char>>),
> {
    match r {
        None => None,
        Some((o, Some(c))) => Some((o@, Some(c@))),
        Some((o, None)) => Some((o@, None)),
    }
}

/// Recognizes an object or claim address in a token of prose.
pub fn parse_okf_address(token: &str) -> (r: Option<(String, Option<String>)>)
    ensures
        address_view(r) == okf_address(token@),
{
    let cs = str_chars(token);
    let mut lo: usize = 0;
    while lo < cs.len() && address_punctuation(cs[lo])
        invariant
            lo <= cs.len(),
            forall|i: int| 0 <= i < lo ==> is_address_punctuation(#[trigger] cs@[i]),
        decreases cs.len() - lo,
    {
        lo = lo + 1;
    }
    let mut hi: usize = cs.len();
    while hi > lo && address_punctuation(cs[hi - 1])
        invariant
            lo <= hi <= cs.len(),
            forall|i: int| hi <= i < cs.len() ==> is_address_punctuation(#[trigger] cs@[i]),
        decreases hi,
    {
        hi = hi - 1;
    }
    proof { lemma_trim_by(cs@, |c: char| is_address_punctuation(c), lo as int, hi as int); }
    let t = slice_chars(cs.as_slice(), lo, hi);
    assert(t@ == trim_by(token@, |c: char| is_address_punctuation(c)));
    let (object_id, claim_id): (Vec<char>, Option<Vec<char>>) = match find_char(t.as_slice(), '#') {
        Some(h) => {
            let o = slice_chars(t.as_slice(), 0, h);
            let c = slice_chars(t.as_slice(), h + 1, t.len());
            assert(o@ == t@.take(h as int));
            assert(c@ == t@.skip(h as int + 1));
            (o, Some(c))
        },
        None => (t, None),
    };
    let d = match find_char(object_id.as_slice(), '.') {
        None => return None,
        Some(d) => d,
    };
    let kind_name = slice_chars(object_id.as_slice(), 0, d);
    let slug = slice_chars(object_id.as_slice(), d + 1, object_id.len());
    assert(kind_name@ == object_id@.take(d as int));
    assert(slug@ == object_id@.skip(d as int + 1));
    let type_text = string_from_chars(&kind_name);
    if !is_semantic_type(type_text.as_str()) || !is_address_part(slug.as_slice()) {
        return None;
    }
    match claim_id {
        Some(c) => {
            if is_address_part(c.as_slice()) {
                Some((string_from_chars(&object_id), Some(string_from_chars(&c))))
            } else {
                None
            }
        },
        None => Some((string_from_chars(&object_id), None)),
    }
}

} // verus!
