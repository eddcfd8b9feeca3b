//! Semantic documents: the framing of front matter and body, the hash
//! projections, and the document-level validation rules.

use vstd::prelude::*;

use crate::okf::body::{trim, trim_chars};
use crate::okf::fields::{
    freshness_problem, generated_problem, hash_problem, or_else, require, require_problem, string_field,
    string_field_spec, timestamp_problem, validate_freshness, validate_generated, validate_verified,
    verified_problem,
};
use crate::okf::registries::opt_text;
use crate::okf::projection::{claim_hash, claim_hash_spec, object_hash, object_hash_spec};
use crate::okf::validate::{
    directory_problem, filename_problem, id_problem, is_kebab_char, is_lifecycle, is_object_type,
    is_semantic_type, outcome, validate_directory_type, validate_filename, validate_hash, validate_id,
    validate_lifecycle, validate_timestamp,
};
use crate::okf::yaml::{boolean, field, is_map, items, str_field, text, untag, Yaml};
use crate::text::{concat2, str_chars, str_eq};

verus! {

/// A semantic object: where it lies, its front matter and its Markdown body.
pub struct SemanticDocument {
    pub path: String,
    pub frontmatter: Yaml,
    pub body: String,
}

/// The stem of the file name of a path (empty when there is none).
pub uninterp spec fn file_stem(path: Seq<char>) -> Seq<char>;

/// The directory part of a path, when it has one.
pub uninterp spec fn parent_path(path: Seq<char>) -> Option<Seq<char>>;

/// The last component of a path, when it names a file or directory.
pub uninterp spec fn file_name(path: Seq<char>) -> Option<Seq<char>>;

/// The name of the directory that holds a path (empty when there is none).
pub open spec fn parent_name(path: Seq<char>) -> Seq<char> {
    match parent_path(path) {
        Some(p) => match file_name(p) {
            Some(n) => n,
            None => Seq::empty(),
        },
        None => Seq::empty(),
    }
}

/// `std::path::Path::file_stem`: the file name of `path` without its last
/// extension, or the empty string when the path has no file name. Trusted:
/// the result is named, not stated.
#[verifier::external_body]
fn path_file_stem(path: &str) -> (s: String)
    ensures
        s@ == file_stem(path@),
{
    match std::path::Path::new(path).file_stem() {
        Some(stem) => match stem.to_str() {
            Some(s) => s.to_owned(),
            None => String::new(),
        },
        None => String::new(),
    }
}

/// `std::path::Path::parent`: the path without its last component, or
/// nothing for a root or an empty path. Trusted: the result is named, not
/// stated.
#[verifier::external_body]
fn path_parent(path: &str) -> (r: Option<String>)
    ensures
        opt_text(r) == parent_path(path@),
{
    match std::path::Path::new(path).parent() {
        Some(p) => match p.to_str() {
            Some(s) => Some(s.to_owned()),
            None => None,
        },
        None => None,
    }
}

/// `std::path::Path::file_name`: the last component of `path`, or nothing
/// when the path ends in `..` or is a root. Trusted: the result is named,
/// not stated.
#[verifier::external_body]
fn path_file_name(path: &str) -> (r: Option<String>)
    ensures
        opt_text(r) == file_name(path@),
{
    match std::path::Path::new(path).file_name() {
        Some(n) => match n.to_str() {
            Some(s) => Some(s.to_owned()),
            None => None,
        },
        None => None,
    }
}

/// The name of the directory that holds `path` (empty when there is none).
fn path_parent_name(path: &str) -> (s: String)
    ensures
        s@ == parent_name(path@),
{
    match path_parent(path) {
        Some(p) => match path_file_name(p.as_str()) {
            Some(n) => n,
            None => String::new(),
        },
        None => String::new(),
    }
}

/// A claim ID: non-empty lowercase letters, digits and hyphens.
pub open spec fn claim_id_shape(id: Seq<char>) -> bool {
    id.len() > 0 && forall|i: int| 0 <= i < id.len() ==> is_kebab_char(#[trigger] id[i])
}

fn is_claim_id(id: &str) -> (b: bool)
    ensures
        b == claim_id_shape(id@),
{
    let s = str_chars(id);
    if s.len() == 0 {
        return false;
    }
    let mut i: usize = 0;
    while i < s.len()
        invariant
            s@ == id@,
            i <= s.len(),
            forall|j: int| 0 <= j < i ==> is_kebab_char(#[trigger] s@[j]),
        decreases s.len() - i,
    {
        let c = s[i];
        if !(('a' <= c && c <= 'z') || ('0' <= c && c <= '9') || c == '-') {
            return false;
        }
        i = i + 1;
    }
    true
}

/// The IDs of the first `k` claims.
pub open spec fn earlier_ids(claims: Seq<Yaml>, k: int) -> Seq<Seq<char>> {
    Seq::new(k as nat, |j: int| str_field(claims[j], "id"@).unwrap())
}

/// The lifecycle rule.
pub open spec fn lifecycle_problem(l: Seq<char>) -> Option<Seq<char>> {
    if is_lifecycle(l) {
        None
    } else {
        Some("lifecycle must be draft, active, or deprecated"@)
    }
}

/// The problem with the claim `c`, given the IDs of the claims before it.
pub open spec fn claim_problem(c: Yaml, earlier: Seq<Seq<char>>) -> Option<Seq<char>> {
    if !is_map(Some(c)) {
        Some("each claim must be a mapping"@)
    } else {
        or_else(
            require_problem(c, "id"@),
            or_else(
                require_problem(c, "lifecycle"@),
                or_else(
                    require_problem(c, "statement"@),
                    or_else(
                        require_problem(c, "load_bearing"@),
                        or_else(require_problem(c, "semantic_hash"@), claim_body_problem(c, earlier)),
                    ),
                ),
            ),
        )
    }
}

/// The checks of a claim after its required fields.
pub open spec fn claim_body_problem(c: Yaml, earlier: Seq<Seq<char>>) -> Option<Seq<char>> {
    match string_field_spec(c, "id"@) {
        Err(e) => Some(e),
        Ok(id) => if !claim_id_shape(id) || earlier.contains(id) {
            Some("claim IDs must be unique lowercase kebab-case values"@)
        } else {
            match string_field_spec(c, "lifecycle"@) {
                Err(e) => Some(e),
                Ok(l) => or_else(
                    lifecycle_problem(l),
                    match string_field_spec(c, "statement"@) {
                        Err(e) => Some(e),
                        Ok(st) => if trim(st).len() == 0 {
                            Some("claim statement must not be empty"@)
                        } else if boolean(field(c, "load_bearing"@)) is None {
                            Some("claim load_bearing must be boolean"@)
                        } else {
                            match string_field_spec(c, "semantic_hash"@) {
                                Err(e) => Some(e),
                                Ok(h) => or_else(
                                    hash_problem(h),
                                    or_else(
                                        freshness_problem(field(c, "freshness"@)),
                                        match claim_hash_spec(untag(c)) {
                                            Err(e) => Some(e),
                                            Ok(actual) => if actual != h {
                                                Some("claim "@ + id + " semantic_hash mismatch"@)
                                            } else {
                                                None
                                            },
                                        },
                                    ),
                                ),
                            }
                        },
                    },
                ),
            }
        },
    }
}

/// The first problem among the claims from index `k` on.
pub open spec fn claims_from(claims: Seq<Yaml>, k: int) -> Option<Seq<char>>
    decreases claims.len() - k,
{
    if k < 0 || k >= claims.len() {
        None
    } else {
        or_else(claim_problem(claims[k], earlier_ids(claims, k)), claims_from(claims, k + 1))
    }
}

/// The problem with a `claims` value: a sequence of claim mappings with
/// unique IDs, each carrying its own semantic hash.
pub open spec fn claims_problem(v: Yaml) -> Option<Seq<char>> {
    match items(Some(v)) {
        None => Some("claims must be a sequence"@),
        Some(list) => claims_from(list, 0),
    }
}

/// Whether the trimmed text is empty.
fn blank(s: &str) -> (b: bool)
    ensures
        b == (trim(s@).len() == 0),
{
    let cs = str_chars(s);
    let t = trim_chars(cs.as_slice());
    t.len() == 0
}

fn validate_claim(c: &Yaml, earlier: &Vec<String>) -> (r: Result<(), String>)
    ensures
        outcome(r) == claim_problem(*c, earlier@.map_values(|s: String| s@)),
{
    if !c.is_mapping() {
        return Err("each claim must be a mapping".to_owned());
    }
    if let Err(e) = require(c, "id") {
        return Err(e);
    }
    if let Err(e) = require(c, "lifecycle") {
        return Err(e);
    }
    if let Err(e) = require(c, "statement") {
        return Err(e);
    }
    if let Err(e) = require(c, "load_bearing") {
        return Err(e);
    }
    if let Err(e) = require(c, "semantic_hash") {
        return Err(e);
    }
    let id = match string_field(c, "id") {
        Err(e) => return Err(e),
        Ok(s) => s,
    };
    let ghost ev = earlier@.map_values(|s: String| s@);
    let mut seen = false;
    let mut i: usize = 0;
    while i < earlier.len()
        invariant
            ev == earlier@.map_values(|s: String| s@),
            i <= earlier.len(),
            seen == exists|j: int| 0 <= j < i && #[trigger] ev[j] == id@,
        decreases earlier.len() - i,
    {
        if str_eq(earlier[i].as_str(), id.as_str()) {
            assert(ev[i as int] == id@);
            seen = true;
        }
        i = i + 1;
    }
    if !is_claim_id(id.as_str()) || seen {
        return Err("claim IDs must be unique lowercase kebab-case values".to_owned());
    }
    let lifecycle = match string_field(c, "lifecycle") {
        Err(e) => return Err(e),
        Ok(s) => s,
    };
    if let Err(e) = validate_lifecycle(lifecycle.as_str()) {
        return Err(e);
    }
    let statement = match string_field(c, "statement") {
        Err(e) => return Err(e),
        Ok(s) => s,
    };
    if blank(statement.as_str()) {
        return Err("claim statement must not be empty".to_owned());
    }
    let bool_flag = match c.get("load_bearing") {
        Some(v) => v.as_bool().is_some(),
        None => false,
    };
    if !bool_flag {
        return Err("claim load_bearing must be boolean".to_owned());
    }
    let hash = match string_field(c, "semantic_hash") {
        Err(e) => return Err(e),
        Ok(s) => s,
    };
    if let Err(e) = validate_hash(hash.as_str()) {
        return Err(e);
    }
    if let Err(e) = validate_freshness(c.get("freshness")) {
        return Err(e);
    }
    match claim_hash(c.untagged()) {
        Err(e) => Err(e),
        Ok(actual) => {
            if !str_eq(actual.as_str(), hash.as_str()) {
                Err(crate::text::concat3("claim ", id.as_str(), " semantic_hash mismatch"))
            } else {
                Ok(())
            }
        },
    }
}

/// Checks a `claims` value.
pub fn validate_claims(value: &Yaml) -> (r: Result<(), String>)
    ensures
        outcome(r) == claims_problem(*value),
{
    let list = match value.as_seq() {
        None => return Err("claims must be a sequence".to_owned()),
        Some(l) => l,
    };
    let mut earlier: Vec<String> = Vec::new();
    let mut k: usize = 0;
    while k < list.len()
        invariant
            items(Some(*value)) == Some(list@),
            k <= list.len(),
            earlier@.map_values(|s: String| s@) == earlier_ids(list@, k as int),
            claims_problem(*value) == claims_from(list@, k as int),
        decreases list.len() - k,
    {
        let r = validate_claim(&list[k], &earlier);
        if r.is_err() {
            return r;
        }
        proof {
            assert(str_field(list@[k as int], "id"@) is Some);
        }
        let id = match list[k].get_str("id") {
            Some(s) => s.to_owned(),
            None => String::new(),
        };
        assert(id@ == str_field(list@[k as int], "id"@).unwrap());
        let ghost before = earlier@.map_values(|s: String| s@);
        earlier.push(id);
        assert(earlier@.map_values(|s: String| s@) =~= before.push(str_field(list@[k as int], "id"@).unwrap()));
        assert(earlier@.map_values(|s: String| s@) =~= earlier_ids(list@, k + 1));
        k = k + 1;
    }
    Ok(())
}

/// The fields every semantic object must have, in the order they are checked.
pub open spec fn document_fields() -> Seq<Seq<char>> {
    seq![
        "id"@,
        "type"@,
        "title"@,
        "description"@,
        "lifecycle"@,
        "created_at"@,
        "updated_at"@,
        "generated"@,
        "semantic_hash"@,
    ]
}

/// The first of `fields` from index `k` on that `map` lacks.
pub open spec fn first_missing(map: Yaml, fields: Seq<Seq<char>>, k: int) -> Option<Seq<char>>
    decreases fields.len() - k,
{
    if k < 0 || k >= fields.len() {
        None
    } else {
        or_else(require_problem(map, fields[k]), first_missing(map, fields, k + 1))
    }
}

/// A text field that must not be blank.
pub open spec fn nonblank_problem(map: Yaml, name: Seq<char>) -> Option<Seq<char>> {
    match string_field_spec(map, name) {
        Err(e) => Some(e),
        Ok(s) => if trim(s).len() == 0 {
            Some(name + " must not be empty"@)
        } else {
            None
        },
    }
}

/// A text field checked by `check`.
pub open spec fn checked_field(map: Yaml, name: Seq<char>, check: spec_fn(Seq<char>) -> Option<Seq<char>>) -> Option<Seq<char>> {
    match string_field_spec(map, name) {
        Err(e) => Some(e),
        Ok(s) => check(s),
    }
}

/// The mismatch message of an object hash.
pub open spec fn mismatch_message(expected: Seq<char>, actual: Seq<char>) -> Seq<char> {
    "semantic_hash mismatch: expected "@ + expected + ", computed "@ + actual
}

/// The checks of a document after its identity: non-blank title and
/// description, lifecycle, timestamps, generation record, hash shape,
/// freshness, claims, verification records and finally the object hash.
pub open spec fn document_rest(d: SemanticDocument, object_type: Seq<char>) -> Option<Seq<char>> {
    let m = d.frontmatter;
    or_else(nonblank_problem(m, "title"@),
    or_else(nonblank_problem(m, "description"@),
    or_else(checked_field(m, "lifecycle"@, |l: Seq<char>| lifecycle_problem(l)),
    or_else(checked_field(m, "created_at"@, |t: Seq<char>| timestamp_problem(t)),
    or_else(checked_field(m, "updated_at"@, |t: Seq<char>| timestamp_problem(t)),
    or_else(generated_problem(field(m, "generated"@)),
    or_else(checked_field(m, "semantic_hash"@, |h: Seq<char>| hash_problem(h)),
    or_else(freshness_problem(field(m, "freshness"@)),
    or_else(if object_type == "reference"@ && field(m, "claims"@) is Some {
            Some("Reference objects must not contain claims"@)
        } else {
            None
        },
    or_else(match field(m, "claims"@) {
            Some(c) => claims_problem(c),
            None => None,
        },
    or_else(match field(m, "verified"@) {
            Some(v) => verified_problem(v),
            None => None,
        },
    match object_hash_spec(m, d.body@) {
        Err(e) => Some(e),
        Ok(actual) => {
            let expected = str_field(m, "semantic_hash"@).unwrap();
            if expected != actual {
                Some(mismatch_message(expected, actual))
            } else {
                None
            }
        },
    })))))))))))
}

/// The problem with a semantic document, if any.
pub open spec fn document_problem(d: SemanticDocument) -> Option<Seq<char>> {
    let m = d.frontmatter;
    or_else(
        first_missing(m, document_fields(), 0),
        match string_field_spec(m, "type"@) {
            Err(e) => Some(e),
            Ok(t) => if !is_object_type(t) {
                Some("type must be one of: entity, concept, system, research, decision, reference"@)
            } else {
                match string_field_spec(m, "id"@) {
                    Err(e) => Some(e),
                    Ok(id) => or_else(
                        id_problem(id, t),
                        or_else(
                            filename_problem(file_stem(d.path@)),
                            or_else(directory_problem(parent_name(d.path@), t), document_rest(d, t)),
                        ),
                    ),
                }
            },
        },
    )
}

fn nonblank_field(map: &Yaml, name: &str) -> (r: Result<(), String>)
    ensures
        outcome(r) == nonblank_problem(*map, name@),
{
    match string_field(map, name) {
        Err(e) => Err(e),
        Ok(s) => if blank(s.as_str()) {
            Err(concat2(name, " must not be empty"))
        } else {
            Ok(())
        },
    }
}

/// Checks a semantic document.
pub fn validate_document(document: &SemanticDocument) -> (r: Result<(), String>)
    ensures
        outcome(r) == document_problem(*document),
{
    let m = &document.frontmatter;
    let names = ["id", "type", "title", "description", "lifecycle", "created_at", "updated_at", "generated", "semantic_hash"];
    let mut k: usize = 0;
    while k < 9
        invariant
            *m == document.frontmatter,
            names@.map_values(|n: &str| n@) == document_fields(),
            k <= 9,
            first_missing(*m, document_fields(), 0) == first_missing(*m, document_fields(), k as int),
        decreases 9 - k,
    {
        assert(names@.map_values(|n: &str| n@)[k as int] == names@[k as int]@);
        let checked = require(m, names[k]);
        assert(first_missing(*m, document_fields(), k as int) == or_else(
            require_problem(*m, document_fields()[k as int]),
            first_missing(*m, document_fields(), k + 1),
        ));
        if let Err(e) = checked {
            return Err(e);
        }
        k = k + 1;
    }
    let object_type = match string_field(m, "type") {
        Err(e) => return Err(e),
        Ok(t) => t,
    };
    if !is_semantic_type(object_type.as_str()) {
        return Err("type must be one of: entity, concept, system, research, decision, reference".to_owned());
    }
    let id = match string_field(m, "id") {
        Err(e) => return Err(e),
        Ok(s) => s,
    };
    if let Err(e) = validate_id(id.as_str(), object_type.as_str()) {
        return Err(e);
    }
    let stem = path_file_stem(document.path.as_str());
    if let Err(e) = validate_filename(stem.as_str()) {
        return Err(e);
    }
    let parent = path_parent_name(document.path.as_str());
    if let Err(e) = validate_directory_type(parent.as_str(), object_type.as_str()) {
        return Err(e);
    }
    if let Err(e) = nonblank_field(m, "title") {
        return Err(e);
    }
    if let Err(e) = nonblank_field(m, "description") {
        return Err(e);
    }
    match string_field(m, "lifecycle") {
        Err(e) => return Err(e),
        Ok(l) => if let Err(e) = validate_lifecycle(l.as_str()) {
            return Err(e);
        },
    }
    match string_field(m, "created_at") {
        Err(e) => return Err(e),
        Ok(t) => if let Err(e) = validate_timestamp(t.as_str()) {
            return Err(e);
        },
    }
    match string_field(m, "updated_at") {
        Err(e) => return Err(e),
        Ok(t) => if let Err(e) = validate_timestamp(t.as_str()) {
            return Err(e);
        },
    }
    if let Err(e) = validate_generated(m.get("generated")) {
        return Err(e);
    }
    let expected = match string_field(m, "semantic_hash") {
        Err(e) => return Err(e),
        Ok(h) => h,
    };
    if let Err(e) = validate_hash(expected.as_str()) {
        return Err(e);
    }
    if let Err(e) = validate_freshness(m.get("freshness")) {
        return Err(e);
    }
    let claims = m.get("claims");
    if str_eq(object_type.as_str(), "reference") && claims.is_some() {
        return Err("Reference objects must not contain claims".to_owned());
    }
    if let Some(c) = claims {
        if let Err(e) = validate_claims(c) {
            return Err(e);
        }
    }
    if let Some(v) = m.get("verified") {
        if let Err(e) = validate_verified(v) {
            return Err(e);
        }
    }
    match object_hash(m, document.body.as_str()) {
        Err(e) => Err(e),
        Ok(actual) => {
            if !str_eq(expected.as_str(), actual.as_str()) {
                let head = concat2("semantic_hash mismatch: expected ", expected.as_str());
                let mid = concat2(head.as_str(), ", computed ");
                Err(concat2(mid.as_str(), actual.as_str()))
            } else {
                Ok(())
            }
        },
    }
}

/// `str::replace("\r\n", "\n")`.
pub open spec fn replace_crlf(s: Seq<char>) -> Seq<char>
    decreases s.len(),
{
    if s.len() == 0 {
        Seq::empty()
    } else if s.len() >= 2 && s[0] == '\r' && s[1] == '\n' {
        seq!['\n'] + replace_crlf(s.skip(2))
    } else {
        seq![s[0]] + replace_crlf(s.drop_first())
    }
}

/// `str::trim_start`: leading white space removed.
pub open spec fn trim_start(s: Seq<char>) -> Seq<char>
    decreases s.len(),
{
    if s.len() > 0 && crate::okf::body::is_whitespace(s[0]) {
        trim_start(s.drop_first())
    } else {
        s
    }
}

/// A front-matter line that uses a YAML anchor or alias.
pub open spec fn anchor_line(l: Seq<char>) -> bool {
    let t = trim_start(l);
    t.len() > 0 && (t[0] == '&' || t[0] == '*')
}

/// A document's text split into its YAML front matter and its body, after
/// CRLF line ends become LF: the text must open with `---` on a line of its
/// own, the front matter ends at the next such line, and it may not use
/// anchors or aliases.
pub open spec fn frontmatter_split(content: Seq<char>) -> Result<(Seq<char>, Seq<char>), Seq<char>> {
    let n = replace_crlf(content);
    if !(n.len() >= 4 && n.take(4) == "---\n"@) {
        Err("semantic object must start with YAML frontmatter delimiter"@)
    } else {
        let rem = n.skip(4);
        match crate::text::first_occurrence(rem, "\n---\n"@) {
            None => Err("semantic object is missing closing YAML frontmatter delimiter"@),
            Some(p) => {
                let yaml = rem.take(p);
                if exists|i: int| 0 <= i < crate::okf::body::lines(yaml).len() && anchor_line(
                    #[trigger] crate::okf::body::lines(yaml)[i],
                ) {
                    Err("YAML anchors and aliases are not supported"@)
                } else {
                    Ok((yaml, n.skip(4 + p + 5)))
                }
            },
        }
    }
}

fn normalize_line_ends(s: &[char]) -> (v: Vec<char>)
    ensures
        v@ == replace_crlf(s@),
{
    let mut v: Vec<char> = Vec::new();
    let mut i: usize = 0;
    assert(s@.skip(0) =~= s@);
    while i < s.len()
        invariant
            i <= s.len(),
            v@ + replace_crlf(s@.skip(i as int)) == replace_crlf(s@),
        decreases s.len() - i,
    {
        let rest = Ghost(s@.skip(i as int));
        if s[i] == '\r' && i + 1 < s.len() && s[i + 1] == '\n' {
            assert(rest@[0] == '\r' && rest@[1] == '\n');
            assert(rest@.skip(2) =~= s@.skip(i + 2));
            v.push('\n');
            i = i + 2;
        } else {
            assert(rest@[0] == s@[i as int]);
            assert(rest@.drop_first() =~= s@.skip(i + 1));
            v.push(s[i]);
            i = i + 1;
        }
    }
    assert(s@.skip(i as int).len() == 0);
    assert(v@ + Seq::<char>::empty() =~= v@);
    v
}

fn trim_start_chars(s: &[char]) -> (t: Vec<char>)
    ensures
        t@ == trim_start(s@),
{
    let mut i: usize = 0;
    assert(s@.skip(0) =~= s@);
    while i < s.len() && (('\u{9}' <= s[i] && s[i] <= '\u{d}') || s[i] == ' ' || s[i] == '\u{85}' || s[i]
        == '\u{a0}' || s[i] == '\u{1680}' || ('\u{2000}' <= s[i] && s[i] <= '\u{200a}') || s[i] == '\u{2028}'
        || s[i] == '\u{2029}' || s[i] == '\u{202f}' || s[i] == '\u{205f}' || s[i] == '\u{3000}')
        invariant
            i <= s.len(),
            trim_start(s@) == trim_start(s@.skip(i as int)),
        decreases s.len() - i,
    {
        assert(s@.skip(i as int)[0] == s@[i as int]);
        assert(s@.skip(i as int).drop_first() =~= s@.skip(i + 1));
        i = i + 1;
    }
    if i < s.len() {
        assert(s@.skip(i as int)[0] == s@[i as int]);
    }
    crate::text::slice_chars(s, i, s.len())
}

/// The front matter of a curated route file: after its first four
/// characters (the opening `---` line), up to the next `---` line, with
/// `\r\n` read as `\n`; nothing when the text is shorter or has no
/// closing line.
pub open spec fn route_frontmatter_spec(content: Seq<char>) -> Option<Seq<char>> {
    let n = replace_crlf(content);
    if n.len() < 4 {
        None
    } else {
        match crate::text::first_occurrence(n.skip(4), "\n---\n"@) {
            Some(p) => Some(n.skip(4).take(p)),
            None => None,
        }
    }
}

/// Reads the front matter of a curated route file.
pub fn route_frontmatter(content: &str) -> (r: Option<String>)
    ensures
        opt_text(r) == route_frontmatter_spec(content@),
{
    let raw = str_chars(content);
    let n = normalize_line_ends(raw.as_slice());
    if n.len() < 4 {
        return None;
    }
    let rem = crate::text::slice_chars(n.as_slice(), 4, n.len());
    assert(rem@ == n@.skip(4));
    let delim = str_chars("\n---\n");
    match crate::text::find_chars(rem.as_slice(), delim.as_slice()) {
        None => None,
        Some(p) => {
            proof {
                crate::text::lemma_first_occurrence_occurs(rem@, delim@);
                reveal_strlit("\n---\n");
                assert(delim@.len() == 5);
            }
            let yaml = crate::text::slice_chars(rem.as_slice(), 0, p);
            assert(yaml@ == rem@.take(p as int));
            Some(crate::text::string_from_chars(&yaml))
        },
    }
}

/// Splits a document's text into front-matter YAML and body.
pub fn split_frontmatter(content: &str) -> (r: Result<(String, String), String>)
    ensures
        match r {
            Ok((y, b)) => frontmatter_split(content@) == Ok::<(Seq<char>, Seq<char>), Seq<char>>((y@, b@)),
            Err(e) => frontmatter_split(content@) == Err::<(Seq<char>, Seq<char>), Seq<char>>(e@),
        },
{
    let raw = str_chars(content);
    let n = normalize_line_ends(raw.as_slice());
    proof {
        reveal_strlit("---\n");
    }
    if !(n.len() >= 4 && n[0] == '-' && n[1] == '-' && n[2] == '-' && n[3] == '\n') {
        proof {
            if n@.len() >= 4 && n@.take(4) == "---\n"@ {
                assert(n@.take(4)[0] == n@[0]);
                assert(n@.take(4)[1] == n@[1]);
                assert(n@.take(4)[2] == n@[2]);
                assert(n@.take(4)[3] == n@[3]);
            }
        }
        return Err("semantic object must start with YAML frontmatter delimiter".to_owned());
    }
    assert(n@.take(4) =~= "---\n"@);
    let rem = crate::text::slice_chars(n.as_slice(), 4, n.len());
    assert(rem@ == n@.skip(4));
    let delim = str_chars("\n---\n");
    let p = match crate::text::find_chars(rem.as_slice(), delim.as_slice()) {
        None => return Err("semantic object is missing closing YAML frontmatter delimiter".to_owned()),
        Some(p) => p,
    };
    proof {
        crate::text::lemma_first_occurrence_occurs(rem@, delim@);
        reveal_strlit("\n---\n");
        assert(delim@.len() == 5);
    }
    assert(p + 5 <= rem.len());
    let yaml = crate::text::slice_chars(rem.as_slice(), 0, p);
    assert(yaml@ == rem@.take(p as int));
    let ls = crate::okf::body::split_lines(yaml.as_slice());
    let ghost lv = ls@.map_values(|v: Vec<char>| v@);
    let ghost expected = if exists|i: int| 0 <= i < crate::okf::body::lines(yaml@).len() && anchor_line(
        #[trigger] crate::okf::body::lines(yaml@)[i],
    ) {
        Err::<(Seq<char>, Seq<char>), Seq<char>>("YAML anchors and aliases are not supported"@)
    } else {
        Ok::<(Seq<char>, Seq<char>), Seq<char>>((yaml@, n@.skip(4 + p + 5)))
    };
    assert(frontmatter_split(content@) == expected);
    let mut k: usize = 0;
    while k < ls.len()
        invariant
            frontmatter_split(content@) == expected,
            expected == if exists|i: int| 0 <= i < crate::okf::body::lines(yaml@).len() && anchor_line(
                #[trigger] crate::okf::body::lines(yaml@)[i],
            ) {
                Err::<(Seq<char>, Seq<char>), Seq<char>>("YAML anchors and aliases are not supported"@)
            } else {
                Ok::<(Seq<char>, Seq<char>), Seq<char>>((yaml@, n@.skip(4 + p + 5)))
            },
            lv == ls@.map_values(|v: Vec<char>| v@),
            lv == crate::okf::body::lines(yaml@),
            k <= ls.len(),
            forall|j: int| 0 <= j < k ==> !anchor_line(#[trigger] lv[j]),
        decreases ls.len() - k,
    {
        assert(lv[k as int] == ls@[k as int]@);
        let t = trim_start_chars(ls[k].as_slice());
        if t.len() > 0 && (t[0] == '&' || t[0] == '*') {
            assert(anchor_line(lv[k as int]));
            return Err("YAML anchors and aliases are not supported".to_owned());
        }
        k = k + 1;
    }
    let body = crate::text::slice_chars(n.as_slice(), 4 + p + 5, n.len());
    assert(body@ == n@.skip(4 + p + 5));
    Ok((crate::text::string_from_chars(&yaml), crate::text::string_from_chars(&body)))
}

/// The value under its tags, taken out of them.
fn into_untagged(y: Yaml) -> (r: Yaml)
    ensures
        r == untag(y),
    decreases y,
{
    match y {
        Yaml::Tagged(_, inner) => into_untagged(*inner),
        _ => y,
    }
}

/// Builds a document from its parsed front matter, which must be a mapping
/// (under whatever tags it carries; the document keeps the mapping).
pub fn document_from_parts(path: &str, frontmatter: Yaml, body: &str) -> (r: Result<SemanticDocument, String>)
    ensures
        match r {
            Ok(d) => is_map(Some(frontmatter)) && d.path@ == path@ && d.frontmatter == untag(frontmatter) && d.body@
                == body@,
            Err(e) => !is_map(Some(frontmatter)) && e@ == "frontmatter must be a YAML mapping"@,
        },
{
    if !frontmatter.is_mapping() {
        return Err("frontmatter must be a YAML mapping".to_owned());
    }
    Ok(SemanticDocument { path: path.to_owned(), frontmatter: into_untagged(frontmatter), body: body.to_owned() })
}

proof fn lemma_claims_from_fails_by(claims: Seq<Yaml>, k: int, j: int)
    requires
        0 <= k <= j < claims.len(),
        claim_problem(claims[j], earlier_ids(claims, j)) is Some,
    ensures
        claims_from(claims, k) is Some,
    decreases j - k,
{
    if k < j {
        lemma_claims_from_fails_by(claims, k + 1, j);
    }
}

/// Claim IDs are unique: a claims list in which two claims have the same
/// string ID fails validation.
pub proof fn law_duplicate_claim_ids_fail(v: Yaml, i: int, j: int, id: Seq<char>)
    requires
        items(Some(v)) is Some,
        0 <= i < j < items(Some(v))->Some_0.len(),
        str_field(items(Some(v))->Some_0[i], "id"@) == Some(id),
        str_field(items(Some(v))->Some_0[j], "id"@) == Some(id),
    ensures
        claims_problem(v) is Some,
{
    let claims = items(Some(v))->Some_0;
    let earlier = earlier_ids(claims, j);
    assert(earlier[i] == id);
    assert(earlier.contains(id));
    lemma_claims_from_fails_by(claims, 0, j);
}

} // verus!

