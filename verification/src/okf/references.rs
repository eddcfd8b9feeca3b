//! Reference sources: every kind of source must name an immutable anchor
//! (a commit, a blob or tree, or a content hash captured at a time).

use vstd::prelude::*;

use crate::okf::body::is_whitespace;
use crate::okf::fields::{
    hash_problem, or_else, starts_with, starts_with_str, string_field, string_field_spec,
    timestamp_problem,
};
use crate::okf::validate::{outcome, sha_shape, validate_hash, validate_sha, validate_timestamp};
use crate::okf::yaml::{field, integer, is_map, text, Yaml};
use crate::text::{concat2, pieces, split_pieces, str_chars, str_eq};

verus! {

/// The problem with a Git SHA-1 in `name`.
pub open spec fn sha_problem(s: Seq<char>, name: Seq<char>) -> Option<Seq<char>> {
    if sha_shape(s) {
        None
    } else {
        Some(name + " must be a 40-character lowercase hexadecimal Git SHA-1"@)
    }
}

/// The source kinds.
pub open spec fn is_reference_kind(k: Seq<char>) -> bool {
    k == "repository_file"@ || k == "repository_tree"@ || k == "git_commit"@ || k == "git_ref"@
        || k == "github_issue"@ || k == "github_pull_request"@ || k == "artifact"@ || k
        == "external_url"@
}

/// A repository name `owner/name`: one `/`, no white space.
pub open spec fn repository_problem(source: Yaml) -> Option<Seq<char>> {
    match string_field_spec(source, "repository"@) {
        Err(e) => Some(e),
        Ok(r) => if r.len() == 0 || pieces(r, '/').len() != 2 || exists|i: int|
            0 <= i < r.len() && is_whitespace(#[trigger] r[i]) {
            Some("Reference repository must use owner/name form"@)
        } else {
            None
        },
    }
}

/// A repository-relative path: no leading `/`, no `\`, no empty or `..`
/// component.
pub open spec fn bad_path(p: Seq<char>) -> bool {
    ||| starts_with(p, "/"@)
    ||| (exists|i: int| 0 <= i < p.len() && #[trigger] p[i] == '\\')
    ||| (exists|i: int| 0 <= i < pieces(p, '/').len() && (#[trigger] pieces(p, '/')[i] == ".."@ || pieces(p, '/')[i].len() == 0))
}

/// The repository and path of a file or tree source.
pub open spec fn locator_problem(source: Yaml) -> Option<Seq<char>> {
    or_else(
        repository_problem(source),
        match string_field_spec(source, "path"@) {
            Err(e) => Some(e),
            Ok(p) => if bad_path(p) {
                Some("Reference path must be repository-relative, use / separators, and contain no .."@)
            } else {
                None
            },
        },
    )
}

/// The snapshot of an anchored source: a commit and the hash named
/// `hash_field`.
pub open spec fn snapshot_commit_problem(source: Yaml, hash_field: Seq<char>) -> Option<Seq<char>> {
    if !is_map(field(source, "snapshot"@)) {
        Some("anchored Reference requires a snapshot mapping"@)
    } else {
        let snapshot = field(source, "snapshot"@).unwrap();
        match string_field_spec(snapshot, "commit"@) {
            Err(e) => Some(e),
            Ok(c) => or_else(
                sha_problem(c, "snapshot.commit"@),
                match string_field_spec(snapshot, hash_field) {
                    Err(e) => Some(e),
                    Ok(h) => sha_problem(h, "snapshot."@ + hash_field),
                },
            ),
        }
    }
}

/// The resolved commit of an active `git_ref` source.
pub open spec fn resolved_commit_problem(source: Yaml) -> Option<Seq<char>> {
    if !is_map(field(source, "snapshot"@)) {
        Some("active git_ref requires snapshot.resolved_commit"@)
    } else {
        match string_field_spec(field(source, "snapshot"@).unwrap(), "resolved_commit"@) {
            Err(e) => Some(e),
            Ok(c) => sha_problem(c, "snapshot.resolved_commit"@),
        }
    }
}

/// The snapshot of a captured source: when and how it was captured and the
/// hash named `hash_field`.
pub open spec fn snapshot_hash_problem(source: Yaml, hash_field: Seq<char>) -> Option<Seq<char>> {
    if !is_map(field(source, "snapshot"@)) {
        Some("Reference requires a snapshot mapping"@)
    } else {
        let snapshot = field(source, "snapshot"@).unwrap();
        match string_field_spec(snapshot, "captured_at"@) {
            Err(e) => Some(e),
            Ok(t) => or_else(
                timestamp_problem(t),
                match string_field_spec(snapshot, "method"@) {
                    Err(e) => Some(e),
                    Ok(_) => match string_field_spec(snapshot, hash_field) {
                        Err(e) => Some(e),
                        Ok(h) => hash_problem(h),
                    },
                },
            ),
        }
    }
}

/// The optional head and merge commits of a pull-request snapshot.
pub open spec fn pull_request_commits_problem(source: Yaml) -> Option<Seq<char>> {
    if !is_map(field(source, "snapshot"@)) {
        None
    } else {
        let snapshot = field(source, "snapshot"@).unwrap();
        or_else(
            match text(field(snapshot, "head_commit"@)) {
                Some(c) => sha_problem(c, "head_commit"@),
                None => None,
            },
            match text(field(snapshot, "merge_commit"@)) {
                Some(c) => sha_problem(c, "merge_commit"@),
                None => None,
            },
        )
    }
}

/// The problem with the `source` of a Reference object whose lifecycle is
/// `lifecycle`.
pub open spec fn reference_source_problem(map: Yaml, lifecycle: Seq<char>) -> Option<Seq<char>> {
    if !is_map(field(map, "source"@)) {
        Some("Reference source must be a mapping"@)
    } else {
        let source = field(map, "source"@).unwrap();
        match string_field_spec(source, "kind"@) {
            Err(e) => Some(e),
            Ok(kind) => if !is_reference_kind(kind) {
                Some("Reference source.kind must be one of: repository_file, repository_tree, git_commit, git_ref, github_issue, github_pull_request, artifact, external_url"@)
            } else if kind == "repository_file"@ {
                or_else(locator_problem(source), snapshot_commit_problem(source, "blob_sha"@))
            } else if kind == "repository_tree"@ {
                or_else(locator_problem(source), snapshot_commit_problem(source, "tree_sha"@))
            } else if kind == "git_commit"@ {
                or_else(
                    repository_problem(source),
                    match string_field_spec(source, "commit"@) {
                        Err(e) => Some(e),
                        Ok(c) => sha_problem(c, "commit"@),
                    },
                )
            } else if kind == "git_ref"@ {
                or_else(
                    repository_problem(source),
                    match string_field_spec(source, "ref_type"@) {
                        Err(e) => Some(e),
                        Ok(rt) => if rt != "branch"@ && rt != "tag"@ {
                            Some("git_ref ref_type must be branch or tag"@)
                        } else {
                            match string_field_spec(source, "ref"@) {
                                Err(e) => Some(e),
                                Ok(_) => if lifecycle == "active"@ {
                                    resolved_commit_problem(source)
                                } else {
                                    None
                                },
                            }
                        },
                    },
                )
            } else if kind == "github_issue"@ || kind == "github_pull_request"@ {
                or_else(
                    repository_problem(source),
                    match integer(field(source, "number"@)) {
                        None => Some("GitHub Reference number must be an integer"@),
                        Some(n) => if n <= 0 {
                            Some("GitHub Reference number must be positive"@)
                        } else {
                            or_else(
                                snapshot_hash_problem(source, "content_hash"@),
                                if kind == "github_pull_request"@ {
                                    pull_request_commits_problem(source)
                                } else {
                                    None
                                },
                            )
                        },
                    },
                )
            } else if kind == "artifact"@ {
                match string_field_spec(source, "locator"@) {
                    Err(e) => Some(e),
                    Ok(_) => match string_field_spec(source, "media_type"@) {
                        Err(e) => Some(e),
                        Ok(_) => snapshot_hash_problem(source, "content_hash"@),
                    },
                }
            } else {
                match string_field_spec(source, "url"@) {
                    Err(e) => Some(e),
                    Ok(url) => if !(starts_with(url, "http://"@) || starts_with(url, "https://"@)) {
                        Some("external_url url must use http:// or https://"@)
                    } else {
                        snapshot_hash_problem(source, "content_hash"@)
                    },
                }
            },
        }
    }
}

fn has_whitespace(s: &[char]) -> (b: bool)
    ensures
        b == exists|i: int| 0 <= i < s.len() && is_whitespace(#[trigger] s@[i]),
{
    let mut i: usize = 0;
    while i < s.len()
        invariant
            i <= s.len(),
            forall|j: int| 0 <= j < i ==> !is_whitespace(#[trigger] s@[j]),
        decreases s.len() - i,
    {
        let c = s[i];
        if ('\u{9}' <= c && c <= '\u{d}') || c == ' ' || c == '\u{85}' || c == '\u{a0}' || c == '\u{1680}'
            || ('\u{2000}' <= c && c <= '\u{200a}') || c == '\u{2028}' || c == '\u{2029}' || c
            == '\u{202f}' || c == '\u{205f}' || c == '\u{3000}' {
            assert(is_whitespace(s@[i as int]));
            return true;
        }
        i = i + 1;
    }
    false
}

fn validate_repository(source: &Yaml) -> (r: Result<(), String>)
    ensures
        outcome(r) == repository_problem(*source),
{
    let repo = match string_field(source, "repository") {
        Err(e) => return Err(e),
        Ok(r) => r,
    };
    let cs = str_chars(repo.as_str());
    let parts = split_pieces(cs.as_slice(), '/');
    if cs.len() == 0 || parts.len() != 2 || has_whitespace(cs.as_slice()) {
        return Err("Reference repository must use owner/name form".to_owned());
    }
    Ok(())
}

fn bad_path_exec(p: &str) -> (b: bool)
    ensures
        b == bad_path(p@),
{
    if starts_with_str(p, "/") {
        return true;
    }
    let cs = str_chars(p);
    let mut i: usize = 0;
    while i < cs.len()
        invariant
            cs@ == p@,
            i <= cs.len(),
            forall|j: int| 0 <= j < i ==> #[trigger] cs@[j] != '\\',
        decreases cs.len() - i,
    {
        if cs[i] == '\\' {
            return true;
        }
        i = i + 1;
    }
    let parts = split_pieces(cs.as_slice(), '/');
    let ghost pv = parts@.map_values(|v: Vec<char>| v@);
    let mut k: usize = 0;
    while k < parts.len()
        invariant
            pv == parts@.map_values(|v: Vec<char>| v@),
            pv == pieces(p@, '/'),
            k <= parts.len(),
            forall|j: int| 0 <= j < k ==> !(#[trigger] pv[j] == ".."@ || pv[j].len() == 0),
        decreases parts.len() - k,
    {
        let part = &parts[k];
        assert(pv[k as int] == part@);
        let dots = part.len() == 2 && part[0] == '.' && part[1] == '.';
        proof {
            reveal_strlit("..");
            if part@ == ".."@ {
                assert(part@.len() == 2 && part@[0] == '.' && part@[1] == '.');
            }
            if dots {
                assert(part@ =~= ".."@);
            }
        }
        if dots || part.len() == 0 {
            return true;
        }
        k = k + 1;
    }
    false
}

fn validate_locator(source: &Yaml) -> (r: Result<(), String>)
    ensures
        outcome(r) == locator_problem(*source),
{
    if let Err(e) = validate_repository(source) {
        return Err(e);
    }
    let path = match string_field(source, "path") {
        Err(e) => return Err(e),
        Ok(p) => p,
    };
    if bad_path_exec(path.as_str()) {
        return Err("Reference path must be repository-relative, use / separators, and contain no ..".to_owned());
    }
    Ok(())
}

fn validate_snapshot_commit(source: &Yaml, hash_field: &str) -> (r: Result<(), String>)
    ensures
        outcome(r) == snapshot_commit_problem(*source, hash_field@),
{
    let snapshot = match source.get("snapshot") {
        Some(s) => {
            if !s.is_mapping() {
                return Err("anchored Reference requires a snapshot mapping".to_owned());
            }
            s
        },
        None => return Err("anchored Reference requires a snapshot mapping".to_owned()),
    };
    let commit = match string_field(snapshot, "commit") {
        Err(e) => return Err(e),
        Ok(c) => c,
    };
    if let Err(e) = validate_sha(commit.as_str(), "snapshot.commit") {
        return Err(e);
    }
    let h = match string_field(snapshot, hash_field) {
        Err(e) => return Err(e),
        Ok(h) => h,
    };
    let name = concat2("snapshot.", hash_field);
    validate_sha(h.as_str(), name.as_str())
}

fn validate_resolved_commit(source: &Yaml) -> (r: Result<(), String>)
    ensures
        outcome(r) == resolved_commit_problem(*source),
{
    let snapshot = match source.get("snapshot") {
        Some(s) => {
            if !s.is_mapping() {
                return Err("active git_ref requires snapshot.resolved_commit".to_owned());
            }
            s
        },
        None => return Err("active git_ref requires snapshot.resolved_commit".to_owned()),
    };
    match string_field(snapshot, "resolved_commit") {
        Err(e) => Err(e),
        Ok(c) => validate_sha(c.as_str(), "snapshot.resolved_commit"),
    }
}

fn validate_snapshot_hash(source: &Yaml, hash_field: &str) -> (r: Result<(), String>)
    ensures
        outcome(r) == snapshot_hash_problem(*source, hash_field@),
{
    let snapshot = match source.get("snapshot") {
        Some(s) => {
            if !s.is_mapping() {
                return Err("Reference requires a snapshot mapping".to_owned());
            }
            s
        },
        None => return Err("Reference requires a snapshot mapping".to_owned()),
    };
    match string_field(snapshot, "captured_at") {
        Err(e) => return Err(e),
        Ok(t) => if let Err(e) = validate_timestamp(t.as_str()) {
            return Err(e);
        },
    }
    if let Err(e) = string_field(snapshot, "method") {
        return Err(e);
    }
    match string_field(snapshot, hash_field) {
        Err(e) => Err(e),
        Ok(h) => validate_hash(h.as_str()),
    }
}

fn validate_pull_request_commits(source: &Yaml) -> (r: Result<(), String>)
    ensures
        outcome(r) == pull_request_commits_problem(*source),
{
    let snapshot = match source.get("snapshot") {
        Some(s) => {
            if !s.is_mapping() {
                return Ok(());
            }
            s
        },
        None => return Ok(()),
    };
    if let Some(c) = snapshot.get_str("head_commit") {
        if let Err(e) = validate_sha(c, "head_commit") {
            return Err(e);
        }
    }
    if let Some(c) = snapshot.get_str("merge_commit") {
        if let Err(e) = validate_sha(c, "merge_commit") {
            return Err(e);
        }
    }
    Ok(())
}

/// Checks the `source` of a Reference object with the given lifecycle.
pub fn validate_reference_source(map: &Yaml, lifecycle: &str) -> (r: Result<(), String>)
    ensures
        outcome(r) == reference_source_problem(*map, lifecycle@),
{
    let source = match map.get("source") {
        Some(s) => {
            if !s.is_mapping() {
                return Err("Reference source must be a mapping".to_owned());
            }
            s
        },
        None => return Err("Reference source must be a mapping".to_owned()),
    };
    let kind_text = match string_field(source, "kind") {
        Err(e) => return Err(e),
        Ok(k) => k,
    };
    let kind = kind_text.as_str();
    if str_eq(kind, "repository_file") || str_eq(kind, "repository_tree") {
        if let Err(e) = validate_locator(source) {
            return Err(e);
        }
        let hf = if str_eq(kind, "repository_file") {
            "blob_sha"
        } else {
            "tree_sha"
        };
        validate_snapshot_commit(source, hf)
    } else if str_eq(kind, "git_commit") {
        if let Err(e) = validate_repository(source) {
            return Err(e);
        }
        match string_field(source, "commit") {
            Err(e) => Err(e),
            Ok(c) => validate_sha(c.as_str(), "commit"),
        }
    } else if str_eq(kind, "git_ref") {
        if let Err(e) = validate_repository(source) {
            return Err(e);
        }
        let ref_type = match string_field(source, "ref_type") {
            Err(e) => return Err(e),
            Ok(t) => t,
        };
        if !str_eq(ref_type.as_str(), "branch") && !str_eq(ref_type.as_str(), "tag") {
            return Err("git_ref ref_type must be branch or tag".to_owned());
        }
        if let Err(e) = string_field(source, "ref") {
            return Err(e);
        }
        if str_eq(lifecycle, "active") {
            validate_resolved_commit(source)
        } else {
            Ok(())
        }
    } else if str_eq(kind, "github_issue") || str_eq(kind, "github_pull_request") {
        if let Err(e) = validate_repository(source) {
            return Err(e);
        }
        let number = match source.get("number") {
            Some(v) => match v.as_i64() {
                Some(n) => n,
                None => return Err("GitHub Reference number must be an integer".to_owned()),
            },
            None => return Err("GitHub Reference number must be an integer".to_owned()),
        };
        if number <= 0 {
            return Err("GitHub Reference number must be positive".to_owned());
        }
        if let Err(e) = validate_snapshot_hash(source, "content_hash") {
            return Err(e);
        }
        if str_eq(kind, "github_pull_request") {
            validate_pull_request_commits(source)
        } else {
            Ok(())
        }
    } else if str_eq(kind, "artifact") {
        if let Err(e) = string_field(source, "locator") {
            return Err(e);
        }
        if let Err(e) = string_field(source, "media_type") {
            return Err(e);
        }
        validate_snapshot_hash(source, "content_hash")
    } else if str_eq(kind, "external_url") {
        let url = match string_field(source, "url") {
            Err(e) => return Err(e),
            Ok(u) => u,
        };
        if !(starts_with_str(url.as_str(), "http://") || starts_with_str(url.as_str(), "https://")) {
            return Err("external_url url must use http:// or https://".to_owned());
        }
        validate_snapshot_hash(source, "content_hash")
    } else {
        Err("Reference source.kind must be one of: repository_file, repository_tree, git_commit, git_ref, github_issue, github_pull_request, artifact, external_url".to_owned())
    }
}

} // verus!
