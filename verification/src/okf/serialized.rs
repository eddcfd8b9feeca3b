//! What serde writes of a YAML value as the parser holds it: the JSON text
//! of a relation's selectors, which tells apart otherwise equal edges, and
//! the YAML text of front matter written back to its object file.

use vstd::prelude::*;

use crate::okf::canonical::text_result;
use crate::okf::yaml::{field, Yaml};
use crate::text::{concat2, concat3};
use serde_yaml::value::{Tag, TaggedValue};
use serde_yaml::Value;

verus! {

/// `serde_yaml::Value`, carried from a relation's value to serde_json.
#[verifier::external_type_specification]
#[verifier::external_body]
pub struct ExYamlValue(serde_yaml::Value);

/// What `serde_json::to_string` gives for the YAML value `y` (the empty
/// text where it refuses the value, a mapping key that is not a string for
/// instance).
pub uninterp spec fn json_text_of(y: Yaml) -> Seq<char>;

/// The value as `serde_yaml::Value` holds it, variant for variant: a number
/// keeps its text's value (a float that is no number, `null`, becomes
/// `Null`), a tag keeps its name. Trusted: nothing is stated of the result,
/// which only serde_json and serde_yaml read.
#[verifier::external_body]
fn serde_value(y: &Yaml) -> (v: Value) {
    match y {
        Yaml::Null => Value::Null,
        Yaml::Bool(b) => Value::from(*b),
        Yaml::Int(i) => Value::from(*i),
        Yaml::UInt(u) => Value::from(*u),
        Yaml::Float(s) => s.parse().map_or(Value::Null, Value::Number),
        Yaml::Str(s) => Value::from(s.as_str()),
        Yaml::List(xs) => xs.iter().map(serde_value).collect(),
        Yaml::Mapping(es) => Value::Mapping(es.iter().map(|(k, x)| (serde_value(k), serde_value(x))).collect()),
        Yaml::Tagged(t, x) => serde_tagged(t, x),
    }
}

/// A tagged value as `serde_yaml::Value` holds it: the tag by its name
/// (given with or without its leading `!`), the value converted as
/// `serde_value` does. Trusted: nothing is stated of the result.
#[verifier::external_body]
fn serde_tagged(t: &String, x: &Yaml) -> (v: Value) {
    let tag = Tag::new(format!("!{}", t.trim_start_matches('!')));
    Value::Tagged(Box::new(TaggedValue { tag, value: serde_value(x) }))
}

/// `serde_json::to_string(..).unwrap_or_default()` over the value as
/// serde_yaml holds it. Trusted: the contract names the text as a function
/// of the value alone and says nothing of its form.
#[verifier::external_body]
pub(crate) fn json_text(y: &Yaml) -> (s: String)
    ensures
        s@ == json_text_of(*y),
{
    serde_json::to_string(&serde_value(y)).unwrap_or_default()
}

/// The selectors of a relation: its `selectors` value, or `null`.
pub open spec fn relation_selectors(rel: Yaml) -> Yaml {
    match field(rel, "selectors"@) {
        Some(v) => v,
        None => Yaml::Null,
    }
}

/// The JSON text of a relation's selectors (of `null` when it has none).
pub fn selectors_json(rel: &Yaml) -> (s: String)
    ensures
        s@ == json_text_of(relation_selectors(*rel)),
{
    match rel.get("selectors") {
        Some(v) => json_text(v),
        None => json_text(&Yaml::Null),
    }
}

/// What `serde_yaml::to_string` gives for the YAML value `y`: its text, or
/// the message of the error that stopped it.
pub uninterp spec fn yaml_text_of(y: Yaml) -> Result<Seq<char>, Seq<char>>;

/// `serde_yaml::to_string` over the value as serde_yaml holds it, its error
/// turned into its message. Trusted: the contract names the outcome as a
/// function of the value alone and says nothing of its form.
#[verifier::external_body]
fn yaml_text(y: &Yaml) -> (r: Result<String, String>)
    ensures
        text_result(r) == yaml_text_of(*y),
{
    serde_yaml::to_string(&serde_value(y)).map_err(|error| error.to_string())
}

/// An object file: the front matter as YAML between `---` lines, then the
/// body; or why the front matter could not be written.
pub open spec fn object_file_text(frontmatter: Yaml, body: Seq<char>) -> Result<Seq<char>, Seq<char>> {
    match yaml_text_of(frontmatter) {
        Ok(yaml) => Ok("---\n"@ + yaml + "---\n"@ + body),
        Err(e) => Err(e),
    }
}

/// The text of an object file with the given front matter and body.
pub fn object_file(frontmatter: &Yaml, body: &str) -> (r: Result<String, String>)
    ensures
        text_result(r) == object_file_text(*frontmatter, body@),
{
    match yaml_text(frontmatter) {
        Ok(yaml) => {
            let head = concat3("---\n", yaml.as_str(), "---\n");
            let file = concat2(head.as_str(), body);
            proof {
                reveal_strlit("---\n");
            }
            Ok(file)
        },
        Err(e) => Err(e),
    }
}

} // verus!
