//! Diagnostics and their stable machine codes, and how a command's outcome
//! follows from what it reported.

use vstd::prelude::*;

use crate::okf::canonical::text_result;
use crate::text::{first_occurrence, find_chars, occurs_at, push_str_chars, str_chars, string_from_chars};

verus! {

/// A problem found at a path of the knowledge base.
pub struct Diagnostic {
    pub path: String,
    pub message: String,
}

/// A finding of the source-snapshot checks.
pub struct SourceResult {
    pub path: String,
    pub severity: String,
    pub message: String,
}

/// Whether a command found errors.
#[derive(Clone, Copy, Debug, PartialEq, Eq, Structural)]
pub enum CommandOutcome {
    Clean,
    Errors,
}

/// ASCII upper-case letters mapped to lower case; other characters kept.
pub open spec fn ascii_lower(c: char) -> char {
    if 'A' <= c <= 'Z' {
        ((c as int) + 32) as char
    } else {
        c
    }
}

/// `str::to_ascii_lowercase`.
pub open spec fn lower(s: Seq<char>) -> Seq<char> {
    s.map_values(|c: char| ascii_lower(c))
}

/// `pat` occurs somewhere in `hay`.
pub open spec fn contains(hay: Seq<char>, pat: Seq<char>) -> bool {
    exists|i: int| occurs_at(hay, pat, i)
}

/// The severity of every diagnostic.
pub open spec fn diagnostic_severity(message: Seq<char>) -> Seq<char> {
    "ERROR"@
}

/// The machine code of a diagnostic message: a generated-output code named
/// in the message itself, else the first rule whose phrase occurs in the
/// lower-cased message, else the generic code.
pub open spec fn diagnostic_code(message: Seq<char>) -> Seq<char> {
    let lowered = lower(message);
    if contains(message, "OKF-E420"@) {
        "OKF-E420"@
    } else if contains(message, "OKF-E421"@) {
        "OKF-E421"@
    } else if contains(message, "OKF-E422"@) {
        "OKF-E422"@
    } else if contains(message, "OKF-E423"@) {
        "OKF-E423"@
    } else if contains(message, "OKF-E424"@) {
        "OKF-E424"@
    } else if contains(lowered, "missing semantic object directory"@) {
        "OKF-E002"@
    } else if contains(lowered, "directly inside"@) {
        "OKF-E027"@
    } else if contains(lowered, "duplicate"@) {
        "OKF-E007"@
    } else if contains(lowered, "illegal lifecycle"@) {
        "OKF-E012"@
    } else if contains(lowered, "verified identity mutated"@) {
        "OKF-E025"@
    } else if contains(lowered, "durable ID"@) {
        "OKF-E008"@
    } else if contains(lowered, "unknown object"@) || contains(lowered, "unknown claim"@) {
        "OKF-E104"@
    } else if contains(lowered, "cycle"@) {
        "OKF-E111"@
    } else if contains(lowered, "decision_key"@) {
        "OKF-E308"@
    } else if contains(lowered, "semantic_hash mismatch"@) {
        "OKF-E017"@
    } else {
        "OKF-E001"@
    }
}

/// The machine code of a source-check finding.
pub open spec fn source_result_code(message: Seq<char>) -> Seq<char> {
    let lowered = lower(message);
    if contains(lowered, "drift"@) {
        "OKF-W013"@
    } else if contains(lowered, "unreachable"@) {
        "OKF-W014"@
    } else {
        "OKF-E200"@
    }
}

fn lower_char(c: char) -> (d: char)
    ensures
        d == ascii_lower(c),
{
    if 'A' <= c && c <= 'Z' {
        let b: u8 = c as u8;
        ((b + 32) as char)
    } else {
        c
    }
}

/// The characters of `s` with ASCII letters lower-cased.
pub fn lower_chars(s: &[char]) -> (v: Vec<char>)
    ensures
        v@ == lower(s@),
{
    let mut v: Vec<char> = Vec::new();
    let mut i: usize = 0;
    while i < s.len()
        invariant
            i <= s.len(),
            v@ == lower(s@.take(i as int)),
        decreases s.len() - i,
    {
        let c = lower_char(s[i]);
        v.push(c);
        i = i + 1;
        assert(v@ =~= lower(s@.take(i as int)));
    }
    assert(s@.take(s.len() as int) == s@);
    v
}

/// Whether the literal `pat` occurs in `hay`.
pub fn contains_str(hay: &[char], pat: &str) -> (b: bool)
    ensures
        b == contains(hay@, pat@),
{
    let p = str_chars(pat);
    let r = find_chars(hay, p.as_slice());
    proof {
        reveal(first_occurrence);
    }
    r.is_some()
}

impl Diagnostic {
    /// The severity of the diagnostic.
    pub fn severity(&self) -> (s: &'static str)
        ensures
            s@ == diagnostic_severity(self.message@),
    {
        let message = str_chars(self.message.as_str());
        if contains_str(message.as_slice(), "drift") {
            "ERROR"
        } else {
            "ERROR"
        }
    }

    /// The stable machine code of the diagnostic.
    pub fn code(&self) -> (s: &'static str)
        ensures
            s@ == diagnostic_code(self.message@),
    {
        let message = str_chars(self.message.as_str());
        let lowered = lower_chars(message.as_slice());
        let m = message.as_slice();
        let l = lowered.as_slice();
        if contains_str(m, "OKF-E420") {
            "OKF-E420"
        } else if contains_str(m, "OKF-E421") {
            "OKF-E421"
        } else if contains_str(m, "OKF-E422") {
            "OKF-E422"
        } else if contains_str(m, "OKF-E423") {
            "OKF-E423"
        } else if contains_str(m, "OKF-E424") {
            "OKF-E424"
        } else if contains_str(l, "missing semantic object directory") {
            "OKF-E002"
        } else if contains_str(l, "directly inside") {
            "OKF-E027"
        } else if contains_str(l, "duplicate") {
            "OKF-E007"
        } else if contains_str(l, "illegal lifecycle") {
            "OKF-E012"
        } else if contains_str(l, "verified identity mutated") {
            "OKF-E025"
        } else if contains_str(l, "durable ID") {
            "OKF-E008"
        } else if contains_str(l, "unknown object") || contains_str(l, "unknown claim") {
            "OKF-E104"
        } else if contains_str(l, "cycle") {
            "OKF-E111"
        } else if contains_str(l, "decision_key") {
            "OKF-E308"
        } else if contains_str(l, "semantic_hash mismatch") {
            "OKF-E017"
        } else {
            "OKF-E001"
        }
    }
}

/// The machine code of a source-check finding.
pub fn source_code(result: &SourceResult) -> (s: &'static str)
    ensures
        s@ == source_result_code(result.message@),
{
    let message = str_chars(result.message.as_str());
    let lowered = lower_chars(message.as_slice());
    if contains_str(lowered.as_slice(), "drift") {
        "OKF-W013"
    } else if contains_str(lowered.as_slice(), "unreachable") {
        "OKF-W014"
    } else {
        "OKF-E200"
    }
}

/// A lint run fails when some diagnostic has severity `ERROR`.
pub fn lint_outcome(diagnostics: &[Diagnostic]) -> (r: CommandOutcome)
    ensures
        (r == CommandOutcome::Errors) <==> exists|i: int|
            0 <= i < diagnostics.len() && diagnostic_severity(#[trigger] diagnostics@[i].message@)
                == "ERROR"@,
{
    let mut i: usize = 0;
    while i < diagnostics.len()
        invariant
            i <= diagnostics.len(),
            forall|j: int|
                0 <= j < i ==> diagnostic_severity(#[trigger] diagnostics@[j].message@) != "ERROR"@,
        decreases diagnostics.len() - i,
    {
        let severity = diagnostics[i].severity();
        if crate::text::str_eq(severity, "ERROR") {
            return CommandOutcome::Errors;
        }
        i = i + 1;
    }
    CommandOutcome::Clean
}

/// Several commands together fail when any of them failed.
pub fn combined_outcome(outcomes: &[CommandOutcome]) -> (r: CommandOutcome)
    ensures
        (r == CommandOutcome::Errors) <==> exists|i: int|
            0 <= i < outcomes.len() && #[trigger] outcomes@[i] == CommandOutcome::Errors,
{
    let mut i: usize = 0;
    while i < outcomes.len()
        invariant
            i <= outcomes.len(),
            forall|j: int| 0 <= j < i ==> #[trigger] outcomes@[j] != CommandOutcome::Errors,
        decreases outcomes.len() - i,
    {
        if outcomes[i] == CommandOutcome::Errors {
            return CommandOutcome::Errors;
        }
        i = i + 1;
    }
    CommandOutcome::Clean
}

/// The text line for a diagnostic: `SEVERITY CODE path: message`.
pub open spec fn diagnostic_line(d: Diagnostic) -> Seq<char> {
    diagnostic_severity(d.message@) + " "@ + diagnostic_code(d.message@) + " "@ + d.path@ + ": "@
        + d.message@
}

/// The text report of a lint run, one line per diagnostic.
pub open spec fn diagnostic_report(ds: Seq<Diagnostic>) -> Seq<Seq<char>> {
    if ds.len() == 0 {
        seq!["OKF: no diagnostics"@]
    } else {
        ds.map_values(|d: Diagnostic| diagnostic_line(d))
    }
}

/// The lines that the text format prints for `diagnostics`.
pub fn diagnostic_lines(diagnostics: &[Diagnostic]) -> (lines: Vec<String>)
    ensures
        lines@.map_values(|l: String| l@) == diagnostic_report(diagnostics@),
{
    let mut lines: Vec<String> = Vec::new();
    if diagnostics.len() == 0 {
        lines.push("OKF: no diagnostics".to_owned());
        assert(lines@.map_values(|l: String| l@) =~= diagnostic_report(diagnostics@));
        return lines;
    }
    let mut i: usize = 0;
    while i < diagnostics.len()
        invariant
            i <= diagnostics.len(),
            lines@.map_values(|l: String| l@) == diagnostics@.take(i as int).map_values(
                |d: Diagnostic| diagnostic_line(d),
            ),
        decreases diagnostics.len() - i,
    {
        let d = &diagnostics[i];
        let mut v: Vec<char> = Vec::new();
        push_str_chars(&mut v, d.severity());
        push_str_chars(&mut v, " ");
        push_str_chars(&mut v, d.code());
        push_str_chars(&mut v, " ");
        push_str_chars(&mut v, d.path.as_str());
        push_str_chars(&mut v, ": ");
        push_str_chars(&mut v, d.message.as_str());
        let line = string_from_chars(&v);
        let ghost before = lines@.map_values(|l: String| l@);
        lines.push(line);
        assert(lines@.map_values(|l: String| l@) =~= before.push(diagnostic_line(*d)));
        assert(diagnostics@.take(i + 1).map_values(|d: Diagnostic| diagnostic_line(d))
            =~= diagnostics@.take(i as int).map_values(|d: Diagnostic| diagnostic_line(d)).push(
            diagnostic_line(diagnostics@[i as int]),
        ));
        i = i + 1;
    }
    assert(diagnostics@.take(diagnostics.len() as int) =~= diagnostics@);
    lines
}

/// The members of a JSON object whose values are strings, name and value.
pub open spec fn member_views(members: Vec<(String, String)>) -> Seq<(Seq<char>, Seq<char>)> {
    members@.map_values(|m: (String, String)| (m.0@, m.1@))
}

/// What `serde_json::to_string_pretty` writes of a list of JSON objects
/// whose members are strings (`objects[i]` the members of the `i`th, name
/// and value), or the message of the error that stopped it.
pub uninterp spec fn pretty_objects_of(objects: Seq<Seq<(Seq<char>, Seq<char>)>>) -> Result<Seq<char>, Seq<char>>;

/// `serde_json::to_string_pretty` over the objects as `serde_json` maps of
/// string values. Trusted: the contract names the outcome as a function of
/// the members alone and says nothing of its form.
#[verifier::external_body]
fn pretty_objects(objects: &Vec<Vec<(String, String)>>) -> (r: Result<String, String>)
    ensures
        text_result(r) == pretty_objects_of(objects@.map_values(|o: Vec<(String, String)>| member_views(o))),
{
    let values: Vec<serde_json::Map<String, serde_json::Value>> = objects
        .iter()
        .map(|o| o.iter().map(|(k, v)| (k.clone(), serde_json::Value::from(v.as_str()))).collect())
        .collect();
    serde_json::to_string_pretty(&values).map_err(|error| error.to_string())
}

/// A finding as a JSON object: its code, severity, path and message.
pub open spec fn finding_object(code: Seq<char>, severity: Seq<char>, path: Seq<char>, message: Seq<char>) -> Seq<
    (Seq<char>, Seq<char>),
> {
    seq![("code"@, code), ("severity"@, severity), ("path"@, path), ("message"@, message)]
}

fn finding_members(code: &str, severity: &str, path: &str, message: &str) -> (o: Vec<(String, String)>)
    ensures
        member_views(o) == finding_object(code@, severity@, path@, message@),
{
    let mut o: Vec<(String, String)> = Vec::new();
    o.push(("code".to_owned(), code.to_owned()));
    o.push(("severity".to_owned(), severity.to_owned()));
    o.push(("path".to_owned(), path.to_owned()));
    o.push(("message".to_owned(), message.to_owned()));
    assert(member_views(o) =~= finding_object(code@, severity@, path@, message@));
    o
}

/// A diagnostic as a JSON object.
pub open spec fn diagnostic_object(d: Diagnostic) -> Seq<(Seq<char>, Seq<char>)> {
    finding_object(diagnostic_code(d.message@), diagnostic_severity(d.message@), d.path@, d.message@)
}

/// The JSON report of a lint run: one object per diagnostic, indented.
pub fn diagnostics_json(diagnostics: &[Diagnostic]) -> (r: Result<String, String>)
    ensures
        text_result(r) == pretty_objects_of(diagnostics@.map_values(|d: Diagnostic| diagnostic_object(d))),
{
    let mut objects: Vec<Vec<(String, String)>> = Vec::new();
    let mut i: usize = 0;
    while i < diagnostics.len()
        invariant
            i <= diagnostics.len(),
            objects@.map_values(|o: Vec<(String, String)>| member_views(o)) == diagnostics@.take(i as int).map_values(
                |d: Diagnostic| diagnostic_object(d),
            ),
        decreases diagnostics.len() - i,
    {
        let d = &diagnostics[i];
        let ghost before = objects@.map_values(|o: Vec<(String, String)>| member_views(o));
        objects.push(finding_members(d.code(), d.severity(), d.path.as_str(), d.message.as_str()));
        assert(objects@.map_values(|o: Vec<(String, String)>| member_views(o)) =~= before.push(diagnostic_object(*d)));
        assert(diagnostics@.take(i + 1).map_values(|d: Diagnostic| diagnostic_object(d)) =~= diagnostics@.take(
            i as int,
        ).map_values(|d: Diagnostic| diagnostic_object(d)).push(diagnostic_object(diagnostics@[i as int])));
        i = i + 1;
    }
    assert(diagnostics@.take(diagnostics.len() as int) =~= diagnostics@);
    pretty_objects(&objects)
}

/// A source-check finding as a JSON object.
pub open spec fn source_object(r: SourceResult) -> Seq<(Seq<char>, Seq<char>)> {
    finding_object(source_result_code(r.message@), r.severity@, r.path@, r.message@)
}

/// The JSON report of the source checks: one object per finding, indented.
pub fn source_results_json(results: &[SourceResult]) -> (r: Result<String, String>)
    ensures
        text_result(r) == pretty_objects_of(results@.map_values(|x: SourceResult| source_object(x))),
{
    let mut objects: Vec<Vec<(String, String)>> = Vec::new();
    let mut i: usize = 0;
    while i < results.len()
        invariant
            i <= results.len(),
            objects@.map_values(|o: Vec<(String, String)>| member_views(o)) == results@.take(i as int).map_values(
                |x: SourceResult| source_object(x),
            ),
        decreases results.len() - i,
    {
        let x = &results[i];
        let ghost before = objects@.map_values(|o: Vec<(String, String)>| member_views(o));
        objects.push(finding_members(source_code(x), x.severity.as_str(), x.path.as_str(), x.message.as_str()));
        assert(objects@.map_values(|o: Vec<(String, String)>| member_views(o)) =~= before.push(source_object(*x)));
        assert(results@.take(i + 1).map_values(|x: SourceResult| source_object(x)) =~= results@.take(
            i as int,
        ).map_values(|x: SourceResult| source_object(x)).push(source_object(results@[i as int])));
        i = i + 1;
    }
    assert(results@.take(results.len() as int) =~= results@);
    pretty_objects(&objects)
}

} // verus!
