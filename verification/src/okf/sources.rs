//! The source-snapshot checks of References: what each kind of source needs
//! looked up (a Git query, a file, a remote document), and what the answer
//! means for the recorded snapshot.

use vstd::prelude::*;

use crate::okf::diagnostics::SourceResult;
use crate::okf::fields::{string_field, string_field_spec};
use crate::okf::hash::{hash_bytes, hash_of};
use crate::okf::rehash::{set_field, set_text_field, set_to, set_to_text};
use crate::okf::yaml::{field, integer, is_map, key_is, str_field, text, Yaml};
use crate::text::{concat2, concat3, str_eq};

verus! {

/// What finishing a source check needs from outside.
pub enum SourceStep {
    /// Nothing: these are the findings.
    Report(Vec<SourceResult>),
    /// The trimmed output of `git` run with these arguments.
    Git(Vec<String>),
    /// The bytes of the file at this locator.
    ReadFile(String),
    /// The JSON of a GitHub issue with its comments: repository and number.
    GithubIssue(String, i64),
    /// The JSON of a GitHub pull request: repository and number.
    GithubPullRequest(String, i64),
    /// The body of the document at this URL.
    FetchUrl(String),
}

/// The views of findings: path, severity and message.
pub open spec fn results_view(v: Seq<SourceResult>) -> Seq<(Seq<char>, Seq<char>, Seq<char>)> {
    v.map_values(|r: SourceResult| (r.path@, r.severity@, r.message@))
}

/// The views of a list of strings.
pub open spec fn strings_view(v: Seq<String>) -> Seq<Seq<char>> {
    v.map_values(|s: String| s@)
}

/// A text of the `snapshot` mapping of a source.
pub open spec fn snapshot_text(source: Yaml, name: Seq<char>) -> Option<Seq<char>> {
    match field(source, "snapshot"@) {
        Some(s) => str_field(s, name),
        None => None,
    }
}

/// The kind of a source mapping.
pub open spec fn kind_of(source: Yaml) -> Option<Seq<char>> {
    str_field(source, "kind"@)
}

/// The kinds checked remotely.
pub open spec fn is_remote_kind(kind: Seq<char>) -> bool {
    kind == "github_issue"@ || kind == "github_pull_request"@ || kind == "external_url"@
}

/// The snapshot field holding a repository path's anchor.
pub open spec fn anchor_field(kind: Seq<char>) -> Seq<char> {
    if kind == "repository_file"@ {
        "blob_sha"@
    } else {
        "tree_sha"@
    }
}

/// One finding.
pub open spec fn finding(path: Seq<char>, severity: Seq<char>, message: Seq<char>) -> Seq<(Seq<char>, Seq<char>, Seq<char>)> {
    seq![(path, severity, message)]
}

/// The `git` arguments that check a source, when a Git query decides it.
pub open spec fn git_args(source: Yaml) -> Option<Seq<Seq<char>>> {
    if !is_map(Some(source)) {
        None
    } else {
        match kind_of(source) {
            Some(kind) => if kind == "repository_file"@ || kind == "repository_tree"@ {
                match (snapshot_text(source, "commit"@), str_field(source, "path"@), snapshot_text(source, anchor_field(kind))) {
                    (Some(c), Some(l), Some(_)) => Some(seq!["rev-parse"@, c + ":"@ + l]),
                    _ => None,
                }
            } else if kind == "git_commit"@ {
                match str_field(source, "commit"@) {
                    Some(c) => Some(seq!["cat-file"@, "-e"@, c + "^{commit}"@]),
                    None => None,
                }
            } else if kind == "git_ref"@ {
                match (str_field(source, "ref"@), snapshot_text(source, "resolved_commit"@)) {
                    (Some(r), Some(_)) => Some(seq!["rev-parse"@, r]),
                    _ => None,
                }
            } else {
                None
            },
            None => None,
        }
    }
}

/// The locator whose bytes decide an artifact source.
pub open spec fn read_locator(source: Yaml) -> Option<Seq<char>> {
    if is_map(Some(source)) && kind_of(source) == Some("artifact"@) {
        match (str_field(source, "locator"@), snapshot_text(source, "content_hash"@)) {
            (Some(l), Some(_)) => Some(l),
            _ => None,
        }
    } else {
        None
    }
}

/// The repository and number of a GitHub source, or why they cannot be
/// read (`bad_number` when the number is not an integer).
pub open spec fn github_target(source: Yaml, bad_number: Seq<char>) -> Result<(Seq<char>, int), Seq<char>> {
    match string_field_spec(source, "repository"@) {
        Err(e) => Err(e),
        Ok(r) => match integer(field(source, "number"@)) {
            Some(n) => Ok((r, n)),
            None => Err(bad_number),
        },
    }
}

/// The remote lookup of a source: its kind, and the repository and number
/// or URL it names (or why they cannot be read).
pub open spec fn remote_target(source: Yaml) -> Option<(Seq<char>, Result<(Seq<char>, int), Seq<char>>)> {
    if !is_map(Some(source)) {
        None
    } else {
        match kind_of(source) {
            Some(kind) => if is_remote_kind(kind) && snapshot_text(source, "content_hash"@) is Some {
                if kind == "github_issue"@ {
                    Some((kind, github_target(source, "GitHub issue number must be an integer"@)))
                } else if kind == "github_pull_request"@ {
                    Some((kind, github_target(source, "GitHub pull request number must be an integer"@)))
                } else {
                    Some((
                        kind,
                        match string_field_spec(source, "url"@) {
                            Ok(u) => Ok((u, 0)),
                            Err(e) => Err(e),
                        },
                    ))
                }
            } else {
                None
            },
            None => None,
        }
    }
}

/// The findings known without looking anything up, for the sources that
/// need no lookup.
pub open spec fn immediate_results(source: Yaml, path: Seq<char>) -> Seq<(Seq<char>, Seq<char>, Seq<char>)> {
    if !is_map(Some(source)) {
        finding(path, "ERROR"@, "source is not a mapping"@)
    } else {
        match kind_of(source) {
            None => finding(path, "ERROR"@, "source.kind is missing"@),
            Some(kind) => if kind == "repository_file"@ || kind == "repository_tree"@ {
                finding(path, "ERROR"@, "local Git Reference is missing its anchor"@)
            } else if kind == "git_commit"@ {
                finding(path, "ERROR"@, "git_commit is missing commit"@)
            } else if kind == "git_ref"@ {
                if str_field(source, "ref"@) is None {
                    finding(path, "ERROR"@, "git_ref is missing ref"@)
                } else {
                    finding(path, "WARNING"@, "floating git_ref was not checked because it has no resolved snapshot"@)
                }
            } else if kind == "artifact"@ {
                if str_field(source, "locator"@) is None {
                    finding(path, "ERROR"@, "artifact is missing locator"@)
                } else {
                    finding(path, "ERROR"@, "artifact is missing content_hash"@)
                }
            } else if is_remote_kind(kind) {
                if snapshot_text(source, "content_hash"@) is None {
                    finding(path, "WARNING"@, kind + " source has no persisted content_hash"@)
                } else {
                    match remote_target(source) {
                        Some((_, Err(e))) => finding(path, "WARNING"@, kind + " source could not be rechecked: "@ + e),
                        _ => Seq::empty(),
                    }
                }
            } else {
                finding(path, "ERROR"@, "unsupported source kind: "@ + kind)
            },
        }
    }
}

/// The source kinds are distinct names.
proof fn lemma_kind_names()
    ensures
        "repository_file"@.len() == 15,
        "repository_tree"@.len() == 15,
        "repository_file"@ != "repository_tree"@,
        "git_commit"@.len() == 10,
        "git_ref"@.len() == 7,
        "artifact"@.len() == 8,
        "github_issue"@.len() == 12,
        "github_pull_request"@.len() == 19,
        "external_url"@.len() == 12,
        "github_issue"@ != "external_url"@,
        ""@.len() == 0,
{
    reveal_strlit("repository_file");
    reveal_strlit("repository_tree");
    reveal_strlit("git_commit");
    reveal_strlit("git_ref");
    reveal_strlit("artifact");
    reveal_strlit("github_issue");
    reveal_strlit("github_pull_request");
    reveal_strlit("external_url");
    reveal_strlit("");
    assert("repository_file"@[11] != "repository_tree"@[11]);
    assert("github_issue"@[0] != "external_url"@[0]);
}

fn one_result(path: &str, severity: &str, message: String) -> (v: Vec<SourceResult>)
    ensures
        results_view(v@) == finding(path@, severity@, message@),
{
    let mut v: Vec<SourceResult> = Vec::new();
    v.push(SourceResult { path: path.to_owned(), severity: severity.to_owned(), message });
    assert(results_view(v@) =~= finding(path@, severity@, message@));
    v
}

fn snapshot_str<'a>(source: &'a Yaml, name: &str) -> (r: Option<&'a str>)
    ensures
        match r {
            Some(s) => snapshot_text(*source, name@) == Some(s@),
            None => snapshot_text(*source, name@) is None,
        },
{
    match source.get("snapshot") {
        Some(s) => s.get_str(name),
        None => None,
    }
}

/// What checking a source needs: the findings when nothing has to be
/// looked up, else the lookup to make.
pub fn plan_source_check(source: &Yaml, path: &str) -> (r: SourceStep)
    ensures
        match r {
            SourceStep::Report(v) => results_view(v@) == immediate_results(*source, path@) && git_args(*source) is None
                && read_locator(*source) is None && !(remote_target(*source) matches Some((_, Ok(_)))),
            SourceStep::Git(args) => git_args(*source) == Some(strings_view(args@)),
            SourceStep::ReadFile(l) => read_locator(*source) == Some(l@),
            SourceStep::GithubIssue(repo, n) => remote_target(*source) == Some(
                ("github_issue"@, Ok::<(Seq<char>, int), Seq<char>>((repo@, n as int))),
            ),
            SourceStep::GithubPullRequest(repo, n) => remote_target(*source) == Some(
                ("github_pull_request"@, Ok::<(Seq<char>, int), Seq<char>>((repo@, n as int))),
            ),
            SourceStep::FetchUrl(u) => remote_target(*source) == Some(
                ("external_url"@, Ok::<(Seq<char>, int), Seq<char>>((u@, 0))),
            ),
        },
{
    proof {
        lemma_kind_names();
    }
    if !source.is_mapping() {
        return SourceStep::Report(one_result(path, "ERROR", "source is not a mapping".to_owned()));
    }
    let kind = match source.get_str("kind") {
        Some(k) => k,
        None => {
            return SourceStep::Report(one_result(path, "ERROR", "source.kind is missing".to_owned()));
        },
    };
    if str_eq(kind, "repository_file") || str_eq(kind, "repository_tree") {
        let anchor = if str_eq(kind, "repository_file") { "blob_sha" } else { "tree_sha" };
        let commit = snapshot_str(source, "commit");
        let locator = source.get_str("path");
        let expected = snapshot_str(source, anchor);
        match (commit, locator, expected) {
            (Some(c), Some(l), Some(_)) => {
                let mut args: Vec<String> = Vec::new();
                args.push("rev-parse".to_owned());
                args.push(concat3(c, ":", l));
                assert(strings_view(args@) =~= seq!["rev-parse"@, c@ + ":"@ + l@]);
                SourceStep::Git(args)
            },
            _ => SourceStep::Report(one_result(path, "ERROR", "local Git Reference is missing its anchor".to_owned())),
        }
    } else if str_eq(kind, "git_commit") {
        match source.get_str("commit") {
            Some(c) => {
                let mut args: Vec<String> = Vec::new();
                args.push("cat-file".to_owned());
                args.push("-e".to_owned());
                args.push(concat2(c, "^{commit}"));
                assert(strings_view(args@) =~= seq!["cat-file"@, "-e"@, c@ + "^{commit}"@]);
                SourceStep::Git(args)
            },
            None => SourceStep::Report(one_result(path, "ERROR", "git_commit is missing commit".to_owned())),
        }
    } else if str_eq(kind, "git_ref") {
        let reference = match source.get_str("ref") {
            Some(r) => r,
            None => {
                return SourceStep::Report(one_result(path, "ERROR", "git_ref is missing ref".to_owned()));
            },
        };
        match snapshot_str(source, "resolved_commit") {
            Some(_) => {
                let mut args: Vec<String> = Vec::new();
                args.push("rev-parse".to_owned());
                args.push(reference.to_owned());
                assert(strings_view(args@) =~= seq!["rev-parse"@, reference@]);
                SourceStep::Git(args)
            },
            None => SourceStep::Report(
                one_result(path, "WARNING", "floating git_ref was not checked because it has no resolved snapshot".to_owned()),
            ),
        }
    } else if str_eq(kind, "artifact") {
        let locator = match source.get_str("locator") {
            Some(l) => l,
            None => {
                return SourceStep::Report(one_result(path, "ERROR", "artifact is missing locator".to_owned()));
            },
        };
        match snapshot_str(source, "content_hash") {
            Some(_) => SourceStep::ReadFile(locator.to_owned()),
            None => SourceStep::Report(one_result(path, "ERROR", "artifact is missing content_hash".to_owned())),
        }
    } else if str_eq(kind, "github_issue") || str_eq(kind, "github_pull_request") || str_eq(kind, "external_url") {
        if snapshot_str(source, "content_hash").is_none() {
            return SourceStep::Report(one_result(path, "WARNING", concat2(kind, " source has no persisted content_hash")));
        }
        let failed = concat2(kind, " source could not be rechecked: ");
        if str_eq(kind, "external_url") {
            return match string_field(source, "url") {
                Ok(u) => SourceStep::FetchUrl(u),
                Err(e) => SourceStep::Report(one_result(path, "WARNING", concat2(failed.as_str(), e.as_str()))),
            };
        }
        let is_issue = str_eq(kind, "github_issue");
        let repository = match string_field(source, "repository") {
            Ok(r) => r,
            Err(e) => {
                return SourceStep::Report(one_result(path, "WARNING", concat2(failed.as_str(), e.as_str())));
            },
        };
        let number = match source.get("number") {
            Some(v) => v.as_i64(),
            None => None,
        };
        match number {
            Some(n) => if is_issue {
                SourceStep::GithubIssue(repository, n)
            } else {
                SourceStep::GithubPullRequest(repository, n)
            },
            None => {
                let e = if is_issue {
                    "GitHub issue number must be an integer"
                } else {
                    "GitHub pull request number must be an integer"
                };
                SourceStep::Report(one_result(path, "WARNING", concat2(failed.as_str(), e)))
            },
        }
    } else {
        SourceStep::Report(one_result(path, "ERROR", concat2("unsupported source kind: ", kind)))
    }
}

/// What the answer of the Git query means for a source: the anchor that
/// was found must be the recorded one, and an unreachable source is an
/// error.
pub open spec fn git_results(source: Yaml, path: Seq<char>, reply: Result<Seq<char>, Seq<char>>) -> Seq<
    (Seq<char>, Seq<char>, Seq<char>),
> {
    let kind = kind_of(source)->Some_0;
    if kind == "git_commit"@ {
        match reply {
            Ok(_) => Seq::empty(),
            Err(e) => finding(path, "ERROR"@, "git_commit is unreachable: "@ + e),
        }
    } else if kind == "git_ref"@ {
        let expected = snapshot_text(source, "resolved_commit"@)->Some_0;
        match reply {
            Ok(actual) => if actual == expected {
                Seq::empty()
            } else {
                finding(path, "ERROR"@, "git_ref drifted: expected "@ + expected + ", found "@ + actual)
            },
            Err(e) => finding(path, "ERROR"@, "git_ref is unreachable: "@ + e),
        }
    } else {
        let expected = snapshot_text(source, anchor_field(kind))->Some_0;
        match reply {
            Ok(actual) => if actual == expected {
                Seq::empty()
            } else {
                finding(path, "ERROR"@, kind + " anchor drifted: expected "@ + expected + ", found "@ + actual)
            },
            Err(e) => finding(path, "ERROR"@, kind + " source is unreachable: "@ + e),
        }
    }
}

/// The view of a text reply.
pub open spec fn reply_view(r: Result<String, String>) -> Result<Seq<char>, Seq<char>> {
    match r {
        Ok(s) => Ok(s@),
        Err(e) => Err(e@),
    }
}

fn expected_or_empty(v: Option<&str>) -> (s: String)
    ensures
        match v {
            Some(t) => s@ == t@,
            None => s@ == Seq::<char>::empty(),
        },
{
    match v {
        Some(t) => t.to_owned(),
        None => String::new(),
    }
}

fn drift_or_nothing(path: &str, actual: &str, expected: &str, prefix: &str) -> (v: Vec<SourceResult>)
    ensures
        results_view(v@) == if actual@ == expected@ {
            Seq::empty()
        } else {
            finding(path@, "ERROR"@, prefix@ + expected@ + ", found "@ + actual@)
        },
{
    if str_eq(actual, expected) {
        let v: Vec<SourceResult> = Vec::new();
        assert(results_view(v@) =~= Seq::<(Seq<char>, Seq<char>, Seq<char>)>::empty());
        v
    } else {
        let m1 = concat2(prefix, expected);
        let m2 = concat3(m1.as_str(), ", found ", actual);
        assert(m2@ =~= prefix@ + expected@ + ", found "@ + actual@);
        one_result(path, "ERROR", m2)
    }
}

/// The findings of a Git-checked source, given the trimmed output of the
/// query `plan_source_check` asked for, or its error.
pub fn finish_git_check(source: &Yaml, path: &str, reply: Result<String, String>) -> (v: Vec<SourceResult>)
    requires
        git_args(*source) is Some,
    ensures
        results_view(v@) == git_results(*source, path@, reply_view(reply)),
{
    proof {
        lemma_kind_names();
    }
    let kind = match source.get_str("kind") {
        Some(k) => k,
        None => "",
    };
    if str_eq(kind, "git_commit") {
        match reply {
            Ok(_) => {
                let v: Vec<SourceResult> = Vec::new();
                assert(results_view(v@) =~= Seq::<(Seq<char>, Seq<char>, Seq<char>)>::empty());
                v
            },
            Err(e) => one_result(path, "ERROR", concat2("git_commit is unreachable: ", e.as_str())),
        }
    } else if str_eq(kind, "git_ref") {
        let expected = expected_or_empty(snapshot_str(source, "resolved_commit"));
        match reply {
            Ok(actual) => drift_or_nothing(path, actual.as_str(), expected.as_str(), "git_ref drifted: expected "),
            Err(e) => one_result(path, "ERROR", concat2("git_ref is unreachable: ", e.as_str())),
        }
    } else {
        let anchor = if str_eq(kind, "repository_file") { "blob_sha" } else { "tree_sha" };
        let expected = expected_or_empty(snapshot_str(source, anchor));
        match reply {
            Ok(actual) => {
                let prefix = concat2(kind, " anchor drifted: expected ");
                let r = drift_or_nothing(path, actual.as_str(), expected.as_str(), prefix.as_str());
                assert(prefix@ + expected@ + ", found "@ + actual@ =~= kind@ + " anchor drifted: expected "@ + expected@
                    + ", found "@ + actual@);
                r
            },
            Err(e) => one_result(path, "ERROR", concat3(kind, " source is unreachable: ", e.as_str())),
        }
    }
}

/// What the bytes of an artifact mean for its recorded content hash.
pub open spec fn artifact_results(source: Yaml, path: Seq<char>, reply: Result<Seq<u8>, Seq<char>>) -> Seq<
    (Seq<char>, Seq<char>, Seq<char>),
> {
    let expected = snapshot_text(source, "content_hash"@)->Some_0;
    match reply {
        Ok(bytes) => if hash_of(bytes) == expected {
            Seq::empty()
        } else {
            finding(path, "ERROR"@, "artifact content drifted: expected "@ + expected + ", found "@ + hash_of(bytes))
        },
        Err(e) => finding(path, "ERROR"@, "artifact is unreachable: "@ + e),
    }
}

/// The findings of an artifact source, given the bytes read at its locator
/// or the error reading them.
pub fn finish_artifact_check(source: &Yaml, path: &str, reply: Result<Vec<u8>, String>) -> (v: Vec<SourceResult>)
    requires
        read_locator(*source) is Some,
    ensures
        results_view(v@) == artifact_results(*source, path@, match reply {
            Ok(b) => Ok(b@),
            Err(e) => Err(e@),
        }),
{
    let expected = expected_or_empty(snapshot_str(source, "content_hash"));
    match reply {
        Ok(bytes) => {
            let actual = hash_bytes(bytes.as_slice());
            drift_or_nothing(path, actual.as_str(), expected.as_str(), "artifact content drifted: expected ")
        },
        Err(e) => one_result(path, "ERROR", concat2("artifact is unreachable: ", e.as_str())),
    }
}

/// What the current content hash of a remote source means for its
/// recorded one: drift and failure are only warnings.
pub open spec fn remote_results(source: Yaml, path: Seq<char>, reply: Result<Seq<char>, Seq<char>>) -> Seq<
    (Seq<char>, Seq<char>, Seq<char>),
> {
    let kind = kind_of(source)->Some_0;
    let expected = snapshot_text(source, "content_hash"@)->Some_0;
    match reply {
        Ok(actual) => if actual == expected {
            Seq::empty()
        } else {
            finding(path, "WARNING"@, kind + " source drifted: expected "@ + expected + ", found "@ + actual)
        },
        Err(e) => finding(path, "WARNING"@, kind + " source could not be rechecked: "@ + e),
    }
}

/// The findings of a remote source, given the content hash of what the
/// lookup returned or the error it gave.
pub fn finish_remote_check(source: &Yaml, path: &str, reply: Result<String, String>) -> (v: Vec<SourceResult>)
    requires
        remote_target(*source) is Some,
    ensures
        results_view(v@) == remote_results(*source, path@, reply_view(reply)),
{
    proof {
        lemma_kind_names();
    }
    let kind = match source.get_str("kind") {
        Some(k) => k,
        None => "",
    };
    let expected = expected_or_empty(snapshot_str(source, "content_hash"));
    match reply {
        Ok(actual) => {
            if str_eq(actual.as_str(), expected.as_str()) {
                let v: Vec<SourceResult> = Vec::new();
                assert(results_view(v@) =~= Seq::<(Seq<char>, Seq<char>, Seq<char>)>::empty());
                v
            } else {
                let m1 = concat3(kind, " source drifted: expected ", expected.as_str());
                let m2 = concat3(m1.as_str(), ", found ", actual.as_str());
                assert(m2@ =~= kind@ + " source drifted: expected "@ + expected@ + ", found "@ + actual@);
                one_result(path, "WARNING", m2)
            }
        },
        Err(e) => one_result(path, "WARNING", concat3(kind, " source could not be rechecked: ", e.as_str())),
    }
}

/// Whether a source check records freshness on an object: a Reference
/// whose source is not checked remotely.
pub open spec fn records_freshness(m: Yaml) -> bool {
    str_field(m, "type"@) == Some("reference"@) && !is_remote_kind(
        match field(m, "source"@) {
            Some(s) => match str_field(s, "kind"@) {
                Some(k) => k,
                None => Seq::empty(),
            },
            None => Seq::empty(),
        },
    )
}

/// Whether a source check records freshness on an object.
pub fn records_freshness_exec(m: &Yaml) -> (b: bool)
    ensures
        b == records_freshness(*m),
{
    proof {
        lemma_kind_names();
    }
    if m.get_str("type").is_none() || !str_eq(m.get_str("type").unwrap_or(""), "reference") {
        return false;
    }
    let kind = match m.get("source") {
        Some(s) => match s.get_str("kind") {
            Some(k) => k,
            None => "",
        },
        None => "",
    };
    !(str_eq(kind, "github_issue") || str_eq(kind, "github_pull_request") || str_eq(kind, "external_url"))
}

/// The reason an object's source is stale: the message of the first
/// finding at its path, when that finding is an error.
pub open spec fn stale_reason(results: Seq<(Seq<char>, Seq<char>, Seq<char>)>, path: Seq<char>) -> Option<Seq<char>> {
    if exists|i: int| 0 <= i < results.len() && results[i].0 == path {
        let i = choose|i: int|
            0 <= i < results.len() && results[i].0 == path && forall|j: int| 0 <= j < i ==> results[j].0 != path;
        if results[i].1 == "ERROR"@ {
            Some(results[i].2)
        } else {
            None
        }
    } else {
        None
    }
}

/// The entries of a freshness record: `stale` with when and why, or
/// `fresh` with when it was checked.
pub open spec fn freshness_entries(es: Seq<(Yaml, Yaml)>, stale: Option<Seq<char>>, at: Seq<char>) -> bool {
    match stale {
        Some(reason) => {
            &&& es.len() == 3
            &&& key_is(es[0].0, "state"@) && text(Some(es[0].1)) == Some("stale"@)
            &&& key_is(es[1].0, "detected_at"@) && text(Some(es[1].1)) == Some(at)
            &&& key_is(es[2].0, "reason"@) && text(Some(es[2].1)) == Some(reason)
        },
        None => {
            &&& es.len() == 2
            &&& key_is(es[0].0, "state"@) && text(Some(es[0].1)) == Some("fresh"@)
            &&& key_is(es[1].0, "checked_at"@) && text(Some(es[1].1)) == Some(at)
        },
    }
}

fn text_entry(key: &str, value: String) -> (e: (Yaml, Yaml))
    ensures
        key_is(e.0, key@),
        text(Some(e.1)) == Some(value@),
{
    (Yaml::Str(key.to_owned()), Yaml::Str(value))
}

fn first_result_at(results: &[SourceResult], path: &str) -> (r: Option<usize>)
    ensures
        match r {
            Some(i) => i < results.len() && results@[i as int].path@ == path@ && forall|j: int|
                0 <= j < i ==> results@[j].path@ != path@,
            None => forall|j: int| 0 <= j < results.len() ==> results@[j].path@ != path@,
        },
{
    let mut i: usize = 0;
    while i < results.len()
        invariant
            i <= results.len(),
            forall|j: int| 0 <= j < i ==> results@[j].path@ != path@,
        decreases results.len() - i,
    {
        if str_eq(results[i].path.as_str(), path) {
            return Some(i);
        }
        i = i + 1;
    }
    None
}

/// Records on a Reference's front matter what the source check found:
/// `freshness` becomes a stale record with the first error at its path, or
/// a fresh record, and `updated_at` the time of the check.
pub fn record_freshness(frontmatter: Yaml, results: &[SourceResult], path: &str, checked_at: &str) -> (r: Yaml)
    requires
        frontmatter is Mapping,
    ensures
        r is Mapping,
        exists|mid: Seq<(Yaml, Yaml)>, v: Yaml|
            {
                &&& set_to(frontmatter->Mapping_0@, mid, "freshness"@, v)
                &&& v is Mapping
                &&& freshness_entries(v->Mapping_0@, stale_reason(results_view(results@), path@), checked_at@)
                &&& set_to_text(mid, r->Mapping_0@, "updated_at"@, checked_at@)
            },
{
    let ghost rv = results_view(results@);
    let found = first_result_at(results, path);
    let stale: Option<String> = match found {
        Some(i) => if str_eq(results[i].severity.as_str(), "ERROR") {
            Some(results[i].message.clone())
        } else {
            None
        },
        None => None,
    };
    proof {
        match found {
            Some(i) => {
                assert(rv[i as int].0 == path@);
                let c = choose|k: int| 0 <= k < rv.len() && rv[k].0 == path@ && forall|j: int| 0 <= j < k ==> rv[j].0 != path@;
                assert(c == i) by {
                    if c < i {
                        assert(rv[c].0 == results@[c].path@);
                    }
                    if c > i {
                        assert(rv[i as int].0 != path@);
                    }
                }
            },
            None => {
                assert forall|k: int| 0 <= k < rv.len() implies rv[k].0 != path@ by {
                    assert(rv[k].0 == results@[k].path@);
                }
            },
        }
    }
    let mut entries: Vec<(Yaml, Yaml)> = Vec::new();
    match stale {
        Some(reason) => {
            entries.push(text_entry("state", "stale".to_owned()));
            entries.push(text_entry("detected_at", checked_at.to_owned()));
            entries.push(text_entry("reason", reason));
        },
        None => {
            entries.push(text_entry("state", "fresh".to_owned()));
            entries.push(text_entry("checked_at", checked_at.to_owned()));
        },
    }
    let v = Yaml::Mapping(entries);
    let ghost vv = v;
    assert(freshness_entries(vv->Mapping_0@, stale_reason(rv, path@), checked_at@));
    let mid = set_field(frontmatter, "freshness", v);
    let ghost mid_es = mid->Mapping_0@;
    let r = set_text_field(mid, "updated_at", checked_at.to_owned());
    assert(set_to(frontmatter->Mapping_0@, mid_es, "freshness"@, vv));
    r
}

/// A source kind that is looked up remotely.
pub open spec fn remote_kind(kind: Seq<char>) -> bool {
    kind == "github_issue"@ || kind == "github_pull_request"@ || kind == "external_url"@
}

/// A scope that `source-check` accepts.
pub open spec fn known_scope(scope: Seq<char>) -> bool {
    scope == "repo"@ || scope == "remote"@ || scope == "all"@
}

/// Checks the scope given to `source-check`.
pub fn check_scope(scope: &str) -> (r: Result<(), String>)
    ensures
        r is Ok <==> known_scope(scope@),
        r matches Err(e) ==> e@ == "--scope must be repo, remote, or all"@,
{
    if str_eq(scope, "repo") || str_eq(scope, "remote") || str_eq(scope, "all") {
        Ok(())
    } else {
        Err("--scope must be repo, remote, or all".to_owned())
    }
}

/// Whether a source is checked in a scope: the `repo` scope checks the
/// sources that are not looked up remotely, every other scope checks all.
pub open spec fn in_scope(source: Yaml, scope: Seq<char>) -> bool {
    let kind = match str_field(source, "kind"@) {
        Some(k) => k,
        None => Seq::empty(),
    };
    (scope == "repo"@ && !remote_kind(kind)) || scope != "repo"@
}

/// Whether `source-check` in `scope` checks `source`.
pub fn source_in_scope(source: &Yaml, scope: &str) -> (b: bool)
    ensures
        b == in_scope(*source, scope@),
{
    let remote = match source.get_str("kind") {
        Some(kind) => str_eq(kind, "github_issue") || str_eq(kind, "github_pull_request") || str_eq(
            kind,
            "external_url",
        ),
        None => {
            proof {
                reveal_strlit("github_issue");
                reveal_strlit("github_pull_request");
                reveal_strlit("external_url");
                assert("github_issue"@.len() > 0);
                assert("github_pull_request"@.len() > 0);
                assert("external_url"@.len() > 0);
                assert(!remote_kind(Seq::empty()));
            }
            false
        },
    };
    let repo = str_eq(scope, "repo");
    (repo && !remote) || !repo
}

} // verus!
