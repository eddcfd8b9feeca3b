//! Field-level validation of semantic objects: identifiers, slugs, decision
//! keys, file and directory names, lifecycles, timestamps and hashes.

use vstd::prelude::*;

use crate::text::{char_index, concat2, concat3, find_char, slice_chars, str_chars, str_eq};

verus! {

/// The outcome of a check that passes or fails with a message.
pub open spec fn outcome(r: Result<(), String>) -> Option<Seq<char>> {
    match r {
        Ok(_) => None,
        Err(m) => Some(m@),
    }
}

pub open spec fn is_lower(c: char) -> bool {
    'a' <= c <= 'z'
}

pub open spec fn is_digit(c: char) -> bool {
    '0' <= c <= '9'
}

/// A lowercase hexadecimal digit.
pub open spec fn is_lower_hex(c: char) -> bool {
    is_digit(c) || ('a' <= c <= 'f')
}

/// A character of a kebab-case slug: lowercase letter, digit or hyphen.
pub open spec fn is_kebab_char(c: char) -> bool {
    is_lower(c) || is_digit(c) || c == '-'
}

fn kebab_char(c: char) -> (b: bool)
    ensures
        b == is_kebab_char(c),
{
    ('a' <= c && c <= 'z') || ('0' <= c && c <= '9') || c == '-'
}

/// A lowercase kebab-case slug: non-empty, only lowercase letters, digits and
/// hyphens, no leading, trailing or doubled hyphen.
pub open spec fn kebab_slug(s: Seq<char>) -> bool {
    &&& s.len() > 0
    &&& forall|i: int| 0 <= i < s.len() ==> is_kebab_char(#[trigger] s[i])
    &&& s[0] != '-'
    &&& s.last() != '-'
    &&& forall|i: int| 0 <= i < s.len() - 1 ==> !(#[trigger] s[i] == '-' && s[i + 1] == '-')
}

fn is_kebab_slug(s: &[char]) -> (b: bool)
    ensures
        b == kebab_slug(s@),
{
    if s.len() == 0 {
        return false;
    }
    let mut i: usize = 0;
    while i < s.len()
        invariant
            0 < s.len(),
            i <= s.len(),
            forall|j: int| 0 <= j < i ==> is_kebab_char(#[trigger] s@[j]),
            forall|j: int| 0 <= j < i && j < s.len() - 1 ==> !(#[trigger] s@[j] == '-' && s@[j + 1] == '-'),
        decreases s.len() - i,
    {
        if !kebab_char(s[i]) {
            return false;
        }
        if i + 1 < s.len() && s[i] == '-' && s[i + 1] == '-' {
            return false;
        }
        i = i + 1;
    }
    s[0] != '-' && s[s.len() - 1] != '-'
}

/// A character of a registry slug: lowercase letter, digit or underscore.
pub open spec fn is_slug_char(c: char) -> bool {
    is_lower(c) || is_digit(c) || c == '_'
}

/// A registry name: non-empty snake-case without leading or trailing `_`.
pub open spec fn valid_slug_spec(s: Seq<char>) -> bool {
    &&& s.len() > 0
    &&& forall|i: int| 0 <= i < s.len() ==> is_slug_char(#[trigger] s[i])
    &&& s[0] != '_'
    &&& s.last() != '_'
}

pub fn valid_slug(value: &str) -> (b: bool)
    ensures
        b == valid_slug_spec(value@),
{
    let s = str_chars(value);
    if s.len() == 0 {
        return false;
    }
    let mut i: usize = 0;
    while i < s.len()
        invariant
            s@ == value@,
            i <= s.len(),
            forall|j: int| 0 <= j < i ==> is_slug_char(#[trigger] s@[j]),
        decreases s.len() - i,
    {
        let c = s[i];
        if !(('a' <= c && c <= 'z') || ('0' <= c && c <= '9') || c == '_') {
            assert(!is_slug_char(s@[i as int]));
            return false;
        }
        i = i + 1;
    }
    s[0] != '_' && s[s.len() - 1] != '_'
}

/// A separator of decision-key segments.
pub open spec fn is_key_sep(c: char) -> bool {
    c == '.' || c == '-'
}

/// A character of a decision key: lowercase letter, digit, dot or hyphen.
pub open spec fn is_key_char(c: char) -> bool {
    is_lower(c) || is_digit(c) || is_key_sep(c)
}

/// A decision key: non-empty lowercase segments of letters and digits
/// separated by single dots or hyphens, with no separator at either end and
/// no two separators in a row.
pub open spec fn valid_decision_key_spec(s: Seq<char>) -> bool {
    &&& s.len() > 0
    &&& forall|i: int| 0 <= i < s.len() ==> is_key_char(#[trigger] s[i])
    &&& !is_key_sep(s[0])
    &&& !is_key_sep(s.last())
    &&& forall|i: int| 0 <= i < s.len() - 1 ==> !(#[trigger] is_key_sep(s[i]) && is_key_sep(s[i + 1]))
}

pub fn valid_decision_key(value: &str) -> (b: bool)
    ensures
        b == valid_decision_key_spec(value@),
{
    let s = str_chars(value);
    if s.len() == 0 {
        return false;
    }
    let mut i: usize = 0;
    while i < s.len()
        invariant
            s@ == value@,
            0 < s.len(),
            i <= s.len(),
            forall|j: int| 0 <= j < i ==> is_key_char(#[trigger] s@[j]),
            forall|j: int| 0 <= j < i && j < s.len() - 1 ==> !(#[trigger] is_key_sep(s@[j]) && is_key_sep(s@[j + 1])),
        decreases s.len() - i,
    {
        let c = s[i];
        let sep = c == '.' || c == '-';
        if !(('a' <= c && c <= 'z') || ('0' <= c && c <= '9') || sep) {
            assert(!is_key_char(s@[i as int]));
            assert(!valid_decision_key_spec(value@));
            return false;
        }
        if i + 1 < s.len() && sep && (s[i + 1] == '.' || s[i + 1] == '-') {
            assert(is_key_sep(s@[i as int]) && is_key_sep(s@[i + 1]));
            assert(!valid_decision_key_spec(value@));
            return false;
        }
        i = i + 1;
    }
    let first = s[0];
    let last = s[s.len() - 1];
    !(first == '.' || first == '-') && !(last == '.' || last == '-')
}

/// The problem with an object id for the given type, if any: it must be
/// `<type>.<slug>` split at the first dot, with a kebab-case slug.
pub open spec fn id_problem(id: Seq<char>, object_type: Seq<char>) -> Option<Seq<char>> {
    match char_index(id, '.') {
        None => Some("id must have the form <type>.<slug>"@),
        Some(p) => if id.subrange(0, p as int) == object_type && kebab_slug(id.subrange((p + 1) as int, id.len() as int)) {
            None
        } else {
            Some("id must match its type and use a lowercase kebab-case slug"@)
        },
    }
}

pub fn validate_id(id: &str, object_type: &str) -> (r: Result<(), String>)
    ensures
        outcome(r) == id_problem(id@, object_type@),
{
    let s = str_chars(id);
    match find_char(s.as_slice(), '.') {
        None => Err("id must have the form <type>.<slug>".to_owned()),
        Some(p) => {
            let prefix = slice_chars(s.as_slice(), 0, p);
            let slug = slice_chars(s.as_slice(), p + 1, s.len());
            let t = str_chars(object_type);
            if crate::text::chars_eq(prefix.as_slice(), t.as_slice()) && is_kebab_slug(slug.as_slice()) {
                Ok(())
            } else {
                Err("id must match its type and use a lowercase kebab-case slug".to_owned())
            }
        },
    }
}

/// The problem with a file stem, if any: it must be a kebab-case slug.
pub open spec fn filename_problem(stem: Seq<char>) -> Option<Seq<char>> {
    if kebab_slug(stem) {
        None
    } else {
        Some("filename must be lowercase ASCII kebab-case"@)
    }
}

/// Checks the stem of a semantic object's file name.
pub fn validate_filename(stem: &str) -> (r: Result<(), String>)
    ensures
        outcome(r) == filename_problem(stem@),
{
    let s = str_chars(stem);
    if is_kebab_slug(s.as_slice()) {
        Ok(())
    } else {
        Err("filename must be lowercase ASCII kebab-case".to_owned())
    }
}

/// The six semantic object types.
pub open spec fn is_object_type(t: Seq<char>) -> bool {
    t == "entity"@ || t == "concept"@ || t == "system"@ || t == "research"@ || t == "decision"@
        || t == "reference"@
}

/// The directory that holds objects of a type.
pub open spec fn type_directory(t: Seq<char>) -> Seq<char> {
    if t == "entity"@ {
        "entities"@
    } else if t == "concept"@ {
        "concepts"@
    } else if t == "system"@ {
        "systems"@
    } else if t == "research"@ {
        "research"@
    } else if t == "decision"@ {
        "decisions"@
    } else {
        "references"@
    }
}

/// Whether a type name is one of the six semantic types.
pub fn is_semantic_type(t: &str) -> (b: bool)
    ensures
        b == is_object_type(t@),
{
    str_eq(t, "entity") || str_eq(t, "concept") || str_eq(t, "system") || str_eq(t, "research")
        || str_eq(t, "decision") || str_eq(t, "reference")
}

/// The directory name for a semantic type.
pub fn directory_for(object_type: &str) -> (d: &'static str)
    requires
        is_object_type(object_type@),
    ensures
        d@ == type_directory(object_type@),
{
    if str_eq(object_type, "entity") {
        "entities"
    } else if str_eq(object_type, "concept") {
        "concepts"
    } else if str_eq(object_type, "system") {
        "systems"
    } else if str_eq(object_type, "research") {
        "research"
    } else if str_eq(object_type, "decision") {
        "decisions"
    } else {
        "references"
    }
}

/// The problem with an object's parent directory, if any.
pub open spec fn directory_problem(parent: Seq<char>, object_type: Seq<char>) -> Option<Seq<char>> {
    if parent == type_directory(object_type) {
        None
    } else {
        Some("object of type "@ + object_type + " must be inside okf/"@ + type_directory(object_type))
    }
}

/// Checks that an object lies in the directory of its type; `parent` is the
/// name of the directory that holds the file.
pub fn validate_directory_type(parent: &str, object_type: &str) -> (r: Result<(), String>)
    requires
        is_object_type(object_type@),
    ensures
        outcome(r) == directory_problem(parent@, object_type@),
{
    let expected = directory_for(object_type);
    if str_eq(parent, expected) {
        Ok(())
    } else {
        let head = concat3("object of type ", object_type, " must be inside okf/");
        Err(concat2(head.as_str(), expected))
    }
}

/// The three lifecycles.
pub open spec fn is_lifecycle(v: Seq<char>) -> bool {
    v == "draft"@ || v == "active"@ || v == "deprecated"@
}

pub fn validate_lifecycle(value: &str) -> (r: Result<(), String>)
    ensures
        outcome(r) == if is_lifecycle(value@) {
            None
        } else {
            Some("lifecycle must be draft, active, or deprecated"@)
        },
{
    if str_eq(value, "draft") || str_eq(value, "active") || str_eq(value, "deprecated") {
        Ok(())
    } else {
        Err("lifecycle must be draft, active, or deprecated".to_owned())
    }
}

/// Positions of the separators in `YYYY-MM-DDTHH:MM:SSZ`.
pub open spec fn is_separator_position(i: int) -> bool {
    i == 4 || i == 7 || i == 10 || i == 13 || i == 16
}

/// The character at position `j < 19` of a timestamp is acceptable.
pub open spec fn timestamp_char_ok(s: Seq<char>, j: int) -> bool {
    if is_separator_position(j) {
        s[j] == '-' || s[j] == 'T' || s[j] == ':'
    } else {
        is_digit(s[j])
    }
}

/// A UTC timestamp of the form `YYYY-MM-DDTHH:MM:SSZ`: twenty characters
/// ending in `Z`, with `-`, `T` or `:` at the separator positions and digits
/// everywhere else.
pub open spec fn timestamp_shape(s: Seq<char>) -> bool {
    &&& s.len() == 20
    &&& s[19] == 'Z'
    &&& forall|i: int| #[trigger] is_separator_position(i) ==> (s[i] == '-' || s[i] == 'T' || s[i] == ':')
    &&& forall|i: int| 0 <= i < 19 && !is_separator_position(i) ==> is_digit(#[trigger] s[i])
}

pub fn validate_timestamp(value: &str) -> (r: Result<(), String>)
    ensures
        outcome(r) == if timestamp_shape(value@) {
            None
        } else {
            Some("timestamp must be quoted UTC RFC3339 in YYYY-MM-DDTHH:MM:SSZ form"@)
        },
{
    let s = str_chars(value);
    let mut valid = s.len() == 20 && s[19] == 'Z';
    if valid {
        let mut i: usize = 0;
        while i < 19
            invariant
                s.len() == 20,
                i <= 19,
                valid == (forall|j: int| 0 <= j < i ==> #[trigger] timestamp_char_ok(s@, j)),
            decreases 19 - i,
        {
            let c = s[i];
            let ok = if i == 4 || i == 7 || i == 10 || i == 13 || i == 16 {
                c == '-' || c == 'T' || c == ':'
            } else {
                '0' <= c && c <= '9'
            };
            assert(ok == timestamp_char_ok(s@, i as int));
            valid = valid && ok;
            i = i + 1;
        }
        assert(valid == timestamp_shape(value@)) by {
            if valid {
                assert forall|j: int| #[trigger] is_separator_position(j) implies (s@[j] == '-' || s@[j] == 'T' || s@[j] == ':') by {
                    assert(timestamp_char_ok(s@, j));
                }
                assert forall|j: int| 0 <= j < 19 && !is_separator_position(j) implies is_digit(#[trigger] s@[j]) by {
                    assert(timestamp_char_ok(s@, j));
                }
            } else if timestamp_shape(value@) {
                assert forall|j: int| 0 <= j < 19 implies #[trigger] timestamp_char_ok(s@, j) by {
                    if is_separator_position(j) {
                    }
                }
            }
        }
    }
    if valid {
        Ok(())
    } else {
        Err("timestamp must be quoted UTC RFC3339 in YYYY-MM-DDTHH:MM:SSZ form".to_owned())
    }
}

/// All characters of `s` from index `from` on are lowercase hex digits.
pub open spec fn lower_hex_from(s: Seq<char>, from: int) -> bool {
    forall|i: int| from <= i < s.len() ==> is_lower_hex(#[trigger] s[i])
}

fn lower_hex_tail(s: &[char], from: usize) -> (b: bool)
    requires
        from <= s.len(),
    ensures
        b == lower_hex_from(s@, from as int),
{
    let mut i = from;
    while i < s.len()
        invariant
            from <= i <= s.len(),
            forall|j: int| from <= j < i ==> is_lower_hex(#[trigger] s@[j]),
        decreases s.len() - i,
    {
        let c = s[i];
        if !(('0' <= c && c <= '9') || ('a' <= c && c <= 'f')) {
            return false;
        }
        i = i + 1;
    }
    true
}

/// A content hash: `sha256:` followed by 64 lowercase hex digits.
pub open spec fn hash_shape(s: Seq<char>) -> bool {
    s.len() == 71 && s.subrange(0, 7) == "sha256:"@ && lower_hex_from(s, 7)
}

pub fn validate_hash(value: &str) -> (r: Result<(), String>)
    ensures
        outcome(r) == if hash_shape(value@) {
            None
        } else {
            Some("hash must be sha256:<64 lowercase hexadecimal characters>"@)
        },
{
    let s = str_chars(value);
    let ok = if s.len() == 71 {
        let prefix = slice_chars(s.as_slice(), 0, 7);
        let expected = str_chars("sha256:");
        crate::text::chars_eq(prefix.as_slice(), expected.as_slice()) && lower_hex_tail(s.as_slice(), 7)
    } else {
        false
    };
    if ok {
        Ok(())
    } else {
        Err("hash must be sha256:<64 lowercase hexadecimal characters>".to_owned())
    }
}

/// A Git object id: 40 lowercase hex digits.
pub open spec fn sha_shape(s: Seq<char>) -> bool {
    s.len() == 40 && lower_hex_from(s, 0)
}

pub fn validate_sha(value: &str, field: &str) -> (r: Result<(), String>)
    ensures
        outcome(r) == if sha_shape(value@) {
            None
        } else {
            Some(field@ + " must be a 40-character lowercase hexadecimal Git SHA-1"@)
        },
{
    let s = str_chars(value);
    if s.len() == 40 && lower_hex_tail(s.as_slice(), 0) {
        Ok(())
    } else {
        Err(concat2(field, " must be a 40-character lowercase hexadecimal Git SHA-1"))
    }
}

} // verus!
