use map_analyzer::okf::body::normalize_body;
use map_analyzer::okf::canonical::canonical_json;
use map_analyzer::okf::document::{document_from_parts, split_frontmatter, validate_document, SemanticDocument};
use map_analyzer::okf::draft::draft_init;
use map_analyzer::okf::generated::json_bytes;
use map_analyzer::okf::serialized::object_file;
use map_analyzer::okf::github::{github_issue_hash, github_issue_payload, github_pull_request_hash};
use map_analyzer::okf::handoff::{handoff_diagnostics, SESSION_HANDOFF_TEMPLATE};
use map_analyzer::okf::hash::hash_bytes;
use map_analyzer::okf::projection::{claim_hash, claim_json_text, object_hash, object_json_text};
use map_analyzer::okf::references::validate_reference_source;
use map_analyzer::okf::rehash::{rehash, rehash_claims, set_text_field};
use map_analyzer::okf::diagnostics::SourceResult;
use map_analyzer::okf::sources::{
    finish_artifact_check, finish_git_check, finish_remote_check, plan_source_check, record_freshness,
    records_freshness_exec, SourceStep,
};
use map_analyzer::okf::yaml::Yaml;

fn to_yaml(v: &serde_yaml::Value) -> Yaml {
    match v {
        serde_yaml::Value::Null => Yaml::Null,
        serde_yaml::Value::Bool(b) => Yaml::Bool(*b),
        serde_yaml::Value::Number(n) => {
            if let Some(i) = n.as_i64() {
                Yaml::Int(i)
            } else if let Some(u) = n.as_u64() {
                Yaml::UInt(u)
            } else {
                let f = serde_json::Value::from(n.as_f64().unwrap_or(f64::NAN));
                Yaml::Float(serde_json::to_string(&f).unwrap())
            }
        }
        serde_yaml::Value::String(s) => Yaml::Str(s.clone()),
        serde_yaml::Value::Sequence(items) => Yaml::List(items.iter().map(to_yaml).collect()),
        serde_yaml::Value::Mapping(m) => {
            Yaml::Mapping(m.iter().map(|(k, v)| (to_yaml(k), to_yaml(v))).collect())
        }
        serde_yaml::Value::Tagged(t) => Yaml::Tagged(t.tag.to_string(), Box::new(to_yaml(&t.value))),
    }
}

fn json_to_yaml(v: &serde_json::Value) -> Yaml {
    match v {
        serde_json::Value::Null => Yaml::Null,
        serde_json::Value::Bool(b) => Yaml::Bool(*b),
        serde_json::Value::Number(n) => {
            if let Some(i) = n.as_i64() {
                Yaml::Int(i)
            } else if let Some(u) = n.as_u64() {
                Yaml::UInt(u)
            } else {
                Yaml::Float(n.to_string())
            }
        }
        serde_json::Value::String(s) => Yaml::Str(s.clone()),
        serde_json::Value::Array(items) => Yaml::List(items.iter().map(json_to_yaml).collect()),
        serde_json::Value::Object(m) => Yaml::Mapping(
            m.iter().map(|(k, v)| (Yaml::Str(k.clone()), json_to_yaml(v))).collect(),
        ),
    }
}

fn yaml(text: &str) -> Yaml {
    to_yaml(&serde_yaml::from_str::<serde_yaml::Value>(text).unwrap())
}

/// `Mapping::insert`: replaces the value of an existing key, else appends.
fn insert(map: &mut Yaml, key: &str, value: Yaml) {
    if let Yaml::Mapping(entries) = map {
        for entry in entries.iter_mut() {
            if let Yaml::Str(k) = &entry.0 {
                if k == key {
                    entry.1 = value;
                    return;
                }
            }
        }
        entries.push((Yaml::Str(key.to_string()), value));
    }
}

fn sample() -> SemanticDocument {
    let body = "## Definition\n\nA beatmap entity.\n".to_string();
    let frontmatter = yaml(
        "id: entity.beatmap\ntype: entity\ntitle: Beatmap\ndescription: A map.\nlifecycle: draft\ncreated_at: '2026-08-25T00:00:00Z'\nupdated_at: '2026-08-25T00:00:00Z'\ngenerated:\n  by: agent:test\n  at: '2026-08-25T00:00:00Z'\nsemantic_hash: sha256:0000000000000000000000000000000000000000000000000000000000000000\n",
    );
    SemanticDocument { path: "okf/entities/beatmap.md".to_string(), frontmatter, body }
}

#[test]
fn parser_splits_frontmatter_from_body() {
    let content = "---\nid: entity.beatmap\ntype: entity\n---\n\n## Definition\n";
    let (fm, body) = split_frontmatter(content).unwrap();
    let document = document_from_parts("okf/entities/beatmap.md", yaml(&fm), &body).unwrap();
    assert_eq!(document.frontmatter.get_str("id"), Some("entity.beatmap"));
    assert_eq!(document.body, "\n## Definition\n");
}

#[test]
fn object_projection_excludes_administrative_fields() {
    let mut document = sample();
    let first = object_hash(&document.frontmatter, &document.body).unwrap();
    insert(&mut document.frontmatter, "updated_at", Yaml::Str("2026-08-26T00:00:00Z".into()));
    insert(&mut document.frontmatter, "generated", yaml("by: human:test\nat: '2026-08-26T00:00:00Z'"));
    assert_eq!(first, object_hash(&document.frontmatter, &document.body).unwrap());
}

#[test]
fn valid_document_passes_validation() {
    let mut document = sample();
    let hash = object_hash(&document.frontmatter, &document.body).unwrap();
    insert(&mut document.frontmatter, "semantic_hash", Yaml::Str(hash));
    assert!(validate_document(&document).is_ok(), "{:?}", validate_document(&document));
}

#[test]
fn references_cannot_contain_claims() {
    let mut document = sample();
    insert(&mut document.frontmatter, "type", Yaml::Str("reference".into()));
    insert(&mut document.frontmatter, "id", Yaml::Str("reference.source".into()));
    document.path = "okf/references/source.md".to_string();
    insert(&mut document.frontmatter, "claims", Yaml::List(Vec::new()));
    assert_eq!(validate_document(&document).unwrap_err(), "Reference objects must not contain claims");
}

#[test]
fn claim_hash_excludes_administrative_fields() {
    let claim = yaml("id: finding\nlifecycle: draft\nstatement: A finding\nload_bearing: true\nsemantic_hash: sha256:0000000000000000000000000000000000000000000000000000000000000000\nfreshness:\n  state: unknown");
    let first = claim_hash(&claim).unwrap();
    let mut changed = yaml("id: finding\nlifecycle: draft\nstatement: A finding\nload_bearing: true\nsemantic_hash: sha256:0000000000000000000000000000000000000000000000000000000000000000\nfreshness:\n  state: unknown");
    insert(&mut changed, "lifecycle", Yaml::Str("active".into()));
    insert(&mut changed, "semantic_hash", Yaml::Str(format!("sha256:{}", "1".repeat(64))));
    assert_eq!(first, claim_hash(&changed).unwrap());
}

#[test]
fn claim_hash_ignores_an_added_administrative_field() {
    let claim = yaml("id: finding\nstatement: A finding\nload_bearing: true");
    let first = claim_hash(&claim).unwrap();
    let mut changed = yaml("id: finding\nstatement: A finding\nload_bearing: true");
    insert(&mut changed, "freshness", yaml("state: fresh"));
    insert(&mut changed, "lifecycle", Yaml::Str("active".into()));
    assert_eq!(first, claim_hash(&changed).unwrap());
    assert_eq!(claim_json_text(&changed).unwrap(), "{\"id\":\"finding\",\"load_bearing\":true,\"statement\":\"A finding\"}");
}

#[test]
fn object_projection_ignores_an_added_verified_field() {
    let mut document = sample();
    let first = object_json_text(&document.frontmatter).unwrap();
    insert(&mut document.frontmatter, "verified", yaml("by: human:test"));
    assert_eq!(first, object_json_text(&document.frontmatter).unwrap());
}

#[test]
fn reference_source_contracts_require_immutable_anchors() {
    let source = yaml("source:\n  kind: repository_file\n  repository: iamweaker99/map-analyzer-custom\n  path: scripts/okf-tool/src/main.rs\n  snapshot:\n    commit: 0000000000000000000000000000000000000000\n    blob_sha: 0000000000000000000000000000000000000000\n");
    assert!(validate_reference_source(&source, "active").is_ok());
    let floating = yaml("source:\n  kind: git_ref\n  repository: iamweaker99/map-analyzer-custom\n  ref_type: branch\n  ref: main\n");
    assert!(validate_reference_source(&floating, "draft").is_ok());
    assert!(validate_reference_source(&floating, "active").unwrap_err().contains("resolved_commit"));
}

#[test]
fn artifact_snapshot_checker_detects_drift() {
    let source = yaml(&format!(
        "kind: artifact\nlocator: /tmp/okf-artifact.json\nmedia_type: application/json\nsnapshot:\n  method: raw-bytes-v1\n  content_hash: {}\n",
        hash_bytes(b"{\"value\":1}")
    ));
    match plan_source_check(&source, "test") {
        SourceStep::ReadFile(locator) => assert_eq!(locator, "/tmp/okf-artifact.json"),
        _ => panic!("an artifact is checked by reading its bytes"),
    }
    assert!(finish_artifact_check(&source, "test", Ok(b"{\"value\":1}".to_vec())).is_empty());
    assert_eq!(finish_artifact_check(&source, "test", Ok(b"{\"value\":2}".to_vec()))[0].severity, "ERROR");
}

fn issue(label_description: &str, label_url: &str) -> Yaml {
    let text = format!(
        "{{\"number\":3,\"title\":\"Example\",\"body\":\"Body\",\"state\":\"OPEN\",\"stateReason\":\"\",\"labels\":[{{\"name\":\"enhancement\",\"description\":\"{label_description}\",\"url\":\"{label_url}\"}}],\"assignees\":[],\"milestone\":null,\"comments\":[]}}"
    );
    json_to_yaml(&serde_json::from_str::<serde_json::Value>(&text).unwrap())
}

#[test]
fn github_issue_projection_excludes_transport_fields() {
    let first = issue("one", "transport-a");
    let second = issue("changed", "transport-b");
    assert_eq!(
        github_issue_payload("iamweaker99/map-analyzer-custom", &first).unwrap(),
        github_issue_payload("iamweaker99/map-analyzer-custom", &second).unwrap()
    );
}

#[test]
fn github_issue_payload_orders_labels_assignees_and_comments() {
    let text = "{\"number\":7,\"title\":\"T\",\"body\":null,\"state\":\"OPEN\",\"stateReason\":null,\"labels\":[{\"name\":\"zeta\"},{\"name\":\"alpha\"},{\"other\":1}],\"assignees\":[{\"login\":\"bob\"},{\"login\":\"amy\"}],\"milestone\":{\"title\":\"v1\",\"url\":\"x\"},\"comments\":[{\"id\":\"c2\",\"author\":{\"login\":\"bob\"},\"body\":\"second\",\"createdAt\":\"2\",\"url\":\"u\"},{\"id\":\"c1\",\"author\":{\"login\":\"amy\"},\"body\":\"first\",\"createdAt\":\"1\"}]}";
    let value = json_to_yaml(&serde_json::from_str::<serde_json::Value>(text).unwrap());
    let payload = github_issue_payload("o/r", &value).unwrap();
    assert_eq!(
        payload,
        "{\"assignees\":[\"amy\",\"bob\"],\"body\":null,\"comments\":[{\"author\":\"amy\",\"body\":\"first\",\"created_at\":\"1\",\"id\":\"c1\"},{\"author\":\"bob\",\"body\":\"second\",\"created_at\":\"2\",\"id\":\"c2\"}],\"labels\":[\"alpha\",\"zeta\"],\"milestone\":\"v1\",\"number\":7,\"repository\":\"o/r\",\"state\":\"OPEN\",\"state_reason\":null,\"title\":\"T\"}"
    );
    assert_eq!(github_issue_hash("o/r", &value).unwrap(), hash_bytes(payload.as_bytes()));
    let missing = json_to_yaml(&serde_json::from_str::<serde_json::Value>("{\"assignees\":[]}").unwrap());
    assert_eq!(github_issue_payload("o/r", &missing).unwrap_err(), "GitHub response is missing name collection");
    let no_comments = json_to_yaml(&serde_json::from_str::<serde_json::Value>("{\"labels\":[],\"assignees\":[]}").unwrap());
    assert_eq!(github_issue_payload("o/r", &no_comments).unwrap_err(), "GitHub issue response is missing comments");
}

#[test]
fn pull_request_hash_covers_the_compact_json() {
    let text = "{\"title\":\"PR\",\"number\":5,\"comments\":[]}";
    let value = json_to_yaml(&serde_json::from_str::<serde_json::Value>(text).unwrap());
    let expected = serde_json::to_vec(&serde_json::from_str::<serde_json::Value>(text).unwrap()).unwrap();
    assert_eq!(github_pull_request_hash(&value).unwrap(), hash_bytes(&expected));
}

#[test]
fn draft_init_rejects_reference_capture() {
    assert!(draft_init(&["reference".to_string(), "source".to_string()]).is_err());
}

#[test]
fn session_handoff_accepts_existing_object_and_claim_addresses() {
    let frontmatter = yaml("id: research.example\ntype: research\nclaims:\n  - id: finding\n");
    let document = SemanticDocument {
        path: "okf/research/example.md".to_string(),
        frontmatter,
        body: String::new(),
    };
    let content = format!("{SESSION_HANDOFF_TEMPLATE}\n- research.example#finding\n");
    assert!(handoff_diagnostics(&content, &[document]).is_empty());
}

#[test]
fn session_handoff_reports_unknown_claim_addresses() {
    let frontmatter = yaml("id: research.example\ntype: research\nclaims: []\n");
    let document = SemanticDocument {
        path: "okf/research/example.md".to_string(),
        frontmatter,
        body: String::new(),
    };
    let content = format!("{SESSION_HANDOFF_TEMPLATE}\n- research.example#missing\n");
    let diagnostics = handoff_diagnostics(&content, &[document]);
    assert!(diagnostics.iter().any(|diagnostic| diagnostic.contains("unknown claim")));
}

#[test]
fn canonical_json_matches_compact_json_with_sorted_keys() {
    let text = "b: [1, -2, 18446744073709551615, 'x\"y\\\\z']\na: {d: null, c: true}\ne: \"tab\\there\\u0001\"\nf: 1.5\n";
    let value: serde_yaml::Value = serde_yaml::from_str(text).unwrap();
    let expected = serde_json::to_string(&serde_json::to_value(&value).unwrap()).unwrap();
    assert_eq!(canonical_json(&to_yaml(&value)).unwrap(), expected);
    assert_eq!(
        canonical_json(&yaml("k: !tag v")).unwrap_err(),
        "tagged YAML values are not supported"
    );
    let non_string_key = Yaml::Mapping(vec![(Yaml::Int(1), Yaml::Null)]);
    assert_eq!(canonical_json(&non_string_key).unwrap_err(), "semantic YAML mapping keys must be strings");
}

#[test]
fn projections_leave_out_administrative_fields() {
    let document = sample();
    assert_eq!(
        object_json_text(&document.frontmatter).unwrap(),
        "{\"description\":\"A map.\",\"id\":\"entity.beatmap\",\"title\":\"Beatmap\",\"type\":\"entity\"}"
    );
    let claims = yaml("id: x\nclaims:\n  - id: c\n    lifecycle: draft\n    statement: S\n    semantic_hash: h\n");
    assert_eq!(
        object_json_text(&claims).unwrap(),
        "{\"claims\":[{\"id\":\"c\",\"statement\":\"S\"}],\"id\":\"x\"}"
    );
    let claim = yaml("id: c\nlifecycle: draft\nstatement: S\nfreshness: {state: fresh}\n");
    assert_eq!(claim_json_text(&claim).unwrap(), "{\"id\":\"c\",\"statement\":\"S\"}");
}

#[test]
fn changed_content_changes_the_object_hash() {
    let mut document = sample();
    let first = object_hash(&document.frontmatter, &document.body).unwrap();
    insert(&mut document.frontmatter, "title", Yaml::Str("Another".into()));
    assert_ne!(first, object_hash(&document.frontmatter, &document.body).unwrap());
    let body_changed = object_hash(&sample().frontmatter, "## Definition\n\nOther.\n").unwrap();
    assert_ne!(first, body_changed);
    let trailing = object_hash(&sample().frontmatter, "## Definition  \n\nA beatmap entity.\n\n\n").unwrap();
    assert_eq!(first, trailing);
    let messy = "## Definition\t\n\nA beatmap entity.  \n\n";
    assert_eq!(
        object_hash(&sample().frontmatter, &normalize_body(messy)).unwrap(),
        object_hash(&sample().frontmatter, messy).unwrap()
    );
}

#[test]
fn rehash_makes_stored_hashes_match() {
    let mut document = sample();
    insert(
        &mut document.frontmatter,
        "claims",
        yaml("- id: finding\n  lifecycle: draft\n  statement: S\n  load_bearing: true\n  semantic_hash: sha256:0000000000000000000000000000000000000000000000000000000000000000\n"),
    );
    let rehashed = rehash(document.frontmatter, "okf/entities/beatmap.md", &document.body).unwrap();
    let stored = rehashed.get_str("semantic_hash").unwrap().to_string();
    assert_eq!(stored, object_hash(&rehashed, &document.body).unwrap());
    let claim = &rehashed.get("claims").unwrap().as_seq().unwrap()[0];
    assert_eq!(claim.get_str("semantic_hash").unwrap(), claim_hash(claim).unwrap());
    let bad = yaml("claims:\n  - just text\n");
    assert_eq!(rehash_claims(bad, "f.md").unwrap_err(), "f.md: claim must be a mapping");
}

#[test]
fn rehash_adds_missing_hashes_that_match() {
    let body = "Body\n";
    let frontmatter = yaml("id: entity.new\ntype: entity\nclaims:\n  - id: finding\n    statement: S\n");
    let rehashed = rehash(frontmatter, "okf/entities/new.md", body).unwrap();
    let stored = rehashed.get_str("semantic_hash").unwrap().to_string();
    assert_eq!(stored, object_hash(&rehashed, body).unwrap());
    let claim = &rehashed.get("claims").unwrap().as_seq().unwrap()[0];
    assert_eq!(claim.get_str("semantic_hash").unwrap(), claim_hash(claim).unwrap());
    let again = rehash(rehashed, "okf/entities/new.md", body).unwrap();
    assert_eq!(again.get_str("semantic_hash").unwrap(), stored);
}

#[test]
fn rehashed_claims_keep_their_tags() {
    let frontmatter = yaml("claims:\n  - !keep\n    id: finding\n    statement: S\n");
    let out = rehash_claims(frontmatter, "f.md").unwrap();
    let claim = &out.get("claims").unwrap().as_seq().unwrap()[0];
    match claim {
        Yaml::Tagged(tag, inner) => {
            assert_eq!(tag, "!keep");
            assert_eq!(inner.get_str("semantic_hash").unwrap(), claim_hash(inner).unwrap());
        }
        other => panic!("tag lost: {other:?}"),
    }
}

#[test]
fn set_text_field_replaces_or_appends() {
    let map = yaml("a: 1\nb: 2\n");
    let replaced = set_text_field(map, "a", "x".to_string());
    assert_eq!(canonical_json(&replaced).unwrap(), "{\"a\":\"x\",\"b\":2}");
    let appended = set_text_field(yaml("a: 1\n"), "c", "y".to_string());
    match &appended {
        Yaml::Mapping(entries) => assert_eq!(entries.len(), 2),
        _ => panic!("a mapping stays a mapping"),
    }
    assert_eq!(appended.get_str("c"), Some("y"));
}

#[test]
fn source_checks_plan_and_judge_git_anchors() {
    let file = yaml("kind: repository_file\npath: a/b.rs\nsnapshot:\n  commit: c0\n  blob_sha: b0\n");
    match plan_source_check(&file, "okf/references/x.md") {
        SourceStep::Git(args) => assert_eq!(args, vec!["rev-parse".to_string(), "c0:a/b.rs".to_string()]),
        _ => panic!("a repository file is checked with git"),
    }
    assert!(finish_git_check(&file, "p", Ok("b0".to_string())).is_empty());
    let drift = finish_git_check(&file, "p", Ok("b1".to_string()));
    assert_eq!(drift[0].message, "repository_file anchor drifted: expected b0, found b1");
    let gone = finish_git_check(&file, "p", Err("fatal".to_string()));
    assert_eq!(gone[0].message, "repository_file source is unreachable: fatal");
    let floating = yaml("kind: git_ref\nref: main\n");
    match plan_source_check(&floating, "p") {
        SourceStep::Report(results) => assert_eq!(results[0].severity, "WARNING"),
        _ => panic!("a floating ref is not looked up"),
    }
    match plan_source_check(&yaml("kind: weird\n"), "p") {
        SourceStep::Report(results) => assert_eq!(results[0].message, "unsupported source kind: weird"),
        _ => panic!("an unknown kind is reported"),
    }
    match plan_source_check(&yaml("- not a mapping\n"), "p") {
        SourceStep::Report(results) => assert_eq!(results[0].message, "source is not a mapping"),
        _ => panic!("a non-mapping source is reported"),
    }
}

#[test]
fn remote_sources_only_warn() {
    let issue = yaml("kind: github_issue\nrepository: o/r\nnumber: 3\nsnapshot:\n  content_hash: h0\n");
    match plan_source_check(&issue, "p") {
        SourceStep::GithubIssue(repo, n) => {
            assert_eq!(repo, "o/r");
            assert_eq!(n, 3);
        }
        _ => panic!("an issue is fetched"),
    }
    let drift = finish_remote_check(&issue, "p", Ok("h1".to_string()));
    assert_eq!(drift[0].severity, "WARNING");
    assert_eq!(drift[0].message, "github_issue source drifted: expected h0, found h1");
    let no_number = yaml("kind: github_pull_request\nrepository: o/r\nsnapshot:\n  content_hash: h0\n");
    match plan_source_check(&no_number, "p") {
        SourceStep::Report(results) => assert_eq!(
            results[0].message,
            "github_pull_request source could not be rechecked: GitHub pull request number must be an integer"
        ),
        _ => panic!("a pull request without a number is reported"),
    }
    let url = yaml("kind: external_url\nurl: https://example.org\n");
    match plan_source_check(&url, "p") {
        SourceStep::Report(results) => assert_eq!(results[0].message, "external_url source has no persisted content_hash"),
        _ => panic!("a URL without a hash is reported"),
    }
}

#[test]
fn source_checks_record_freshness_on_references() {
    let reference = yaml("type: reference\nsource:\n  kind: artifact\nupdated_at: old\n");
    assert!(records_freshness_exec(&reference));
    assert!(!records_freshness_exec(&yaml("type: reference\nsource:\n  kind: external_url\n")));
    assert!(!records_freshness_exec(&yaml("type: concept\n")));
    let results = vec![SourceResult {
        path: "okf/references/a.md".to_string(),
        severity: "ERROR".to_string(),
        message: "artifact is unreachable: gone".to_string(),
    }];
    let stale = record_freshness(reference, &results, "okf/references/a.md", "2026-01-01T00:00:00Z");
    assert_eq!(
        canonical_json(&stale).unwrap(),
        "{\"freshness\":{\"detected_at\":\"2026-01-01T00:00:00Z\",\"reason\":\"artifact is unreachable: gone\",\"state\":\"stale\"},\"source\":{\"kind\":\"artifact\"},\"type\":\"reference\",\"updated_at\":\"2026-01-01T00:00:00Z\"}"
    );
    let fresh = record_freshness(yaml("type: reference\n"), &results, "okf/references/b.md", "t");
    assert_eq!(
        canonical_json(&fresh).unwrap(),
        "{\"freshness\":{\"checked_at\":\"t\",\"state\":\"fresh\"},\"type\":\"reference\",\"updated_at\":\"t\"}"
    );
}

#[test]
fn object_hash_depends_only_on_semantic_fields() {
    let body = "## Definition\n\nText.\n";
    let first = yaml("id: entity.beatmap\ntype: entity\ntitle: Beatmap\nlifecycle: draft\ncreated_at: '2026-08-25T00:00:00Z'\nsemantic_hash: sha256:0000000000000000000000000000000000000000000000000000000000000000\nclaims:\n  - id: finding\n    statement: S\n    lifecycle: draft\n    semantic_hash: sha256:1111111111111111111111111111111111111111111111111111111111111111\n");
    let second = yaml("verified:\n  - by: human:ana\nupdated_at: '2026-09-01T00:00:00Z'\nid: entity.beatmap\nlifecycle: active\ntype: entity\nclaims:\n  - freshness:\n      state: fresh\n    statement: S\n    lifecycle: active\n    id: finding\ntitle: Beatmap\ngenerated:\n  by: agent:x\n");
    assert_eq!(object_hash(&first, body).unwrap(), object_hash(&second, body).unwrap());
    assert_eq!(object_json_text(&first).unwrap(), object_json_text(&second).unwrap());
    let changed = yaml("id: entity.beatmap\ntype: entity\ntitle: Other\nlifecycle: draft\nclaims:\n  - id: finding\n    statement: S\n");
    assert_ne!(object_hash(&first, body).unwrap(), object_hash(&changed, body).unwrap());
}

#[test]
fn claim_hash_ignores_all_administrative_fields_together() {
    let claim = yaml("id: finding\nlifecycle: draft\nstatement: A finding\nload_bearing: true\nsemantic_hash: sha256:0000000000000000000000000000000000000000000000000000000000000000\nfreshness:\n  state: unknown");
    let changed = yaml("freshness:\n  state: fresh\nsemantic_hash: sha256:1111111111111111111111111111111111111111111111111111111111111111\nload_bearing: true\nstatement: A finding\nid: finding\nlifecycle: active");
    let bare = yaml("id: finding\nstatement: A finding\nload_bearing: true");
    assert_eq!(claim_hash(&claim).unwrap(), claim_hash(&changed).unwrap());
    assert_eq!(claim_hash(&claim).unwrap(), claim_hash(&bare).unwrap());
}

#[test]
fn issue_payload_ignores_fields_it_does_not_cover() {
    let a = "{\"number\":3,\"title\":\"T\",\"body\":\"B\",\"state\":\"OPEN\",\"stateReason\":null,\"url\":\"u1\",\"labels\":[{\"name\":\"b\",\"color\":\"red\"},{\"name\":\"a\"}],\"assignees\":[{\"login\":\"x\",\"id\":1}],\"milestone\":null,\"comments\":[{\"id\":\"c1\",\"author\":{\"login\":\"x\",\"url\":\"p\"},\"body\":\"hi\",\"createdAt\":\"1\",\"reactions\":5}]}";
    let b = "{\"number\":3,\"title\":\"T\",\"body\":\"B\",\"state\":\"OPEN\",\"stateReason\":null,\"url\":\"u2\",\"updatedAt\":\"later\",\"labels\":[{\"name\":\"a\",\"color\":\"blue\"},{\"name\":\"b\"}],\"assignees\":[{\"login\":\"x\",\"id\":2}],\"milestone\":null,\"comments\":[{\"id\":\"c1\",\"author\":{\"login\":\"x\"},\"body\":\"hi\",\"createdAt\":\"1\"}]}";
    let ya = json_to_yaml(&serde_json::from_str::<serde_json::Value>(a).unwrap());
    let yb = json_to_yaml(&serde_json::from_str::<serde_json::Value>(b).unwrap());
    assert_eq!(github_issue_payload("o/r", &ya).unwrap(), github_issue_payload("o/r", &yb).unwrap());
}

#[test]
fn generated_json_files_are_indented_with_a_final_newline() {
    let bytes = json_bytes("{\"a\":[1,2],\"b\":{}}").unwrap();
    assert_eq!(String::from_utf8(bytes).unwrap(), "{\n  \"a\": [\n    1,\n    2\n  ],\n  \"b\": {}\n}\n");
    assert!(json_bytes("{").is_err());
}

#[test]
fn issue_payloads_of_agreeing_responses_both_succeed() {
    let first = issue("one", "transport-a");
    let second = issue("changed", "transport-b");
    assert!(github_issue_payload("o/r", &first).is_ok());
    assert!(github_issue_payload("o/r", &second).is_ok());
}

#[test]
fn object_hash_ignores_administrative_fields_of_object_and_claims() {
    let body = "## Definition\n\nText.\n";
    let first = yaml("id: entity.beatmap\ntype: entity\ntitle: Beatmap\nupdated_at: '2026-08-25T00:00:00Z'\nclaims:\n  - id: finding\n    statement: S\n    lifecycle: draft\n    semantic_hash: sha256:0000000000000000000000000000000000000000000000000000000000000000\n");
    let mut second = yaml("id: entity.beatmap\ntype: entity\ntitle: Beatmap\nupdated_at: '2026-08-25T00:00:00Z'\nclaims:\n  - id: finding\n    statement: S\n    lifecycle: active\n    semantic_hash: sha256:1111111111111111111111111111111111111111111111111111111111111111\n    freshness:\n      state: fresh\n");
    insert(&mut second, "updated_at", Yaml::Str("2026-09-01T00:00:00Z".into()));
    insert(&mut second, "generated", yaml("by: agent:x"));
    assert_eq!(object_hash(&first, body).unwrap(), object_hash(&second, body).unwrap());
    let mut changed = yaml("id: entity.beatmap\ntype: entity\ntitle: Beatmap\nclaims:\n  - id: finding\n    statement: T\n");
    insert(&mut changed, "updated_at", Yaml::Str("2026-08-25T00:00:00Z".into()));
    assert_ne!(object_hash(&first, body).unwrap(), object_hash(&changed, body).unwrap());
}

#[test]
fn object_files_write_front_matter_in_its_order_then_the_body() {
    let frontmatter = yaml("id: entity.beatmap\ntype: entity\ntags:\n- a\n- b\n");
    assert_eq!(
        object_file(&frontmatter, "## Definition\n").unwrap(),
        "---\nid: entity.beatmap\ntype: entity\ntags:\n- a\n- b\n---\n## Definition\n"
    );
}

