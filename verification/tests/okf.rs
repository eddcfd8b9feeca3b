use map_analyzer::okf::body::{markdown_has_heading, normalize_body};
use map_analyzer::okf::cli::{option_value, output_format, parse_okf_address};
use map_analyzer::okf::diagnostics::{
    combined_outcome, diagnostic_lines, diagnostics_json, lint_outcome, source_code, source_results_json,
    CommandOutcome, Diagnostic, SourceResult,
};
use map_analyzer::okf::graph::has_cycle;
use map_analyzer::okf::hash::{chart_key, claim_hash_of, hash_bytes, object_hash_of};
use map_analyzer::okf::history::{history_object_type, History, Observation};
use map_analyzer::okf::time::{civil_from_days, current_utc_timestamp, utc_timestamp};
use map_analyzer::okf::validate::validate_timestamp;

fn strings(items: &[&str]) -> Vec<String> {
    items.iter().map(|s| s.to_string()).collect()
}

#[test]
fn body_normalization_is_deterministic() {
    assert_eq!(normalize_body("a  \r\n\r\n"), "a\n");
    assert_eq!(normalize_body(""), "");
}

#[test]
fn body_normalization_is_idempotent_on_examples() {
    for body in ["a\t \nb\n\n\n", "x\r\ny  ", "\n\n", "line"] {
        let once = normalize_body(body);
        assert_eq!(normalize_body(&once), once);
    }
    assert_eq!(normalize_body("x\r\ny  "), "x\ny\n");
    assert_eq!(normalize_body("\n\n"), "");
}

#[test]
fn a_carriage_return_before_trailing_blanks_survives_one_normalization() {
    let once = normalize_body("a\r \n");
    assert_eq!(once, "a\r\n");
    assert_eq!(normalize_body(&once), "a\n");
}

#[test]
fn headings_are_found_on_trimmed_lines() {
    assert!(markdown_has_heading("intro\n  ## Definition  \nmore", "Definition"));
    assert!(!markdown_has_heading("### Definition\n", "Definition"));
    assert!(!markdown_has_heading("", "Definition"));
}

#[test]
fn hard_cycle_detection_is_limited_to_registered_acyclic_relations() {
    assert!(has_cycle(&["a>b".to_string(), "b>c".to_string(), "c>a".to_string()]));
    assert!(!has_cycle(&["a>b".to_string(), "b>c".to_string()]));
}

#[test]
fn cycle_edge_cases() {
    assert!(has_cycle(&strings(&["a>a"])));
    assert!(!has_cycle(&strings(&[])));
    assert!(!has_cycle(&strings(&["ab", "ba"])));
    assert!(!has_cycle(&strings(&["x>y>z", "y>z>x"])));
    assert!(has_cycle(&strings(&["x>y", "y>x>z", "y>x"])));
    assert!(!has_cycle(&strings(&["a>b", "c>a", "c>b"])));
}

#[test]
fn phase_five_diagnostics_have_stable_machine_codes() {
    let catalog = [
        ("OKF-E420", "okf/index.md"),
        ("OKF-E421", "okf/generated/catalog.json"),
        ("OKF-E422", "okf/generated/graph.json"),
        ("OKF-E423", "okf/generated/review.json"),
        ("OKF-E424", "okf/generated/review.md"),
    ];
    for (code, path) in catalog {
        let diagnostic = Diagnostic {
            path: path.to_string(),
            message: format!("generated output drift ({code})"),
        };
        assert_eq!(diagnostic.severity(), "ERROR");
        assert_eq!(diagnostic.code(), code);
    }
}

fn code_of(message: &str) -> &'static str {
    Diagnostic { path: "okf".to_string(), message: message.to_string() }.code()
}

#[test]
fn diagnostic_codes_follow_the_message() {
    assert_eq!(code_of("missing semantic object directory"), "OKF-E002");
    assert_eq!(code_of("Duplicate ID"), "OKF-E007");
    assert_eq!(code_of("illegal lifecycle transition for x: active -> draft"), "OKF-E012");
    assert_eq!(code_of("verified identity mutated for x"), "OKF-E025");
    assert_eq!(code_of("handoff references unknown claim: a#b"), "OKF-E104");
    assert_eq!(code_of("relation cycle found"), "OKF-E111");
    assert_eq!(code_of("decision_key must be unique"), "OKF-E308");
    assert_eq!(code_of("semantic_hash mismatch"), "OKF-E017");
    assert_eq!(code_of("durable ID x was deleted from repository history"), "OKF-E001");
    assert_eq!(code_of("anything else"), "OKF-E001");
}

#[test]
fn source_codes_follow_the_message() {
    let result = |m: &str| SourceResult {
        path: "okf/references/x.md".to_string(),
        severity: "WARNING".to_string(),
        message: m.to_string(),
    };
    assert_eq!(source_code(&result("content hash Drift detected")), "OKF-W013");
    assert_eq!(source_code(&result("remote unreachable")), "OKF-W014");
    assert_eq!(source_code(&result("missing file")), "OKF-E200");
}

#[test]
fn outcomes_fail_on_any_error() {
    assert_eq!(lint_outcome(&[]), CommandOutcome::Clean);
    let d = Diagnostic { path: "okf".to_string(), message: "x".to_string() };
    assert_eq!(lint_outcome(&[d]), CommandOutcome::Errors);
    assert_eq!(combined_outcome(&[CommandOutcome::Clean, CommandOutcome::Clean]), CommandOutcome::Clean);
    assert_eq!(combined_outcome(&[CommandOutcome::Clean, CommandOutcome::Errors]), CommandOutcome::Errors);
}

#[test]
fn diagnostic_report_lines() {
    assert_eq!(diagnostic_lines(&[]), vec!["OKF: no diagnostics".to_string()]);
    let d = Diagnostic { path: "okf/a.md".to_string(), message: "relation cycle".to_string() };
    assert_eq!(diagnostic_lines(&[d]), vec!["ERROR OKF-E111 okf/a.md: relation cycle".to_string()]);
}

#[test]
fn option_values() {
    let args = strings(&["--format", "json", "--scope"]);
    assert_eq!(option_value(&args, "--format"), Ok(Some("json".to_string())));
    assert_eq!(option_value(&args, "--missing"), Ok(None));
    assert_eq!(option_value(&args, "--scope"), Err("--scope requires a value".to_string()));
    assert_eq!(output_format(&strings(&[])), Ok("text".to_string()));
    assert_eq!(output_format(&args), Ok("json".to_string()));
    assert_eq!(
        output_format(&strings(&["--format", "yaml"])),
        Err("--format must be text or json".to_string())
    );
}

#[test]
fn addresses_in_prose() {
    assert_eq!(
        parse_okf_address("`research.example#finding`,"),
        Some(("research.example".to_string(), Some("finding".to_string())))
    );
    assert_eq!(parse_okf_address("(entity.beatmap)."), Some(("entity.beatmap".to_string(), None)));
    assert_eq!(parse_okf_address("widget.beatmap"), None);
    assert_eq!(parse_okf_address("entity."), None);
    assert_eq!(parse_okf_address("entity.Beatmap"), None);
    assert_eq!(parse_okf_address("entity.beatmap#"), None);
    assert_eq!(parse_okf_address("plain"), None);
}

#[test]
fn hashes_are_prefixed_lowercase_hex() {
    assert_eq!(
        hash_bytes(b""),
        "sha256:e3b0c44298fc1c149afbf4c8996fb92427ae41e4649b934ca495991b7852b855"
    );
    assert_eq!(hash_bytes(b"abc"), "sha256:ba7816bf8f01cfea414140de5dae2223b00361a396177a9cb410ff61f20015ad");
    assert_eq!(claim_hash_of("abc"), hash_bytes(b"abc"));
    assert_eq!(object_hash_of("{}", "a  \n\n"), hash_bytes(b"{}\n---BODY---\na\n"));
    assert_eq!(chart_key(b""), "d41d8cd98f00b204e9800998ecf8427e");
    assert_eq!(chart_key(b"abc"), "900150983cd24fb0d6963f7d28e17f72");
}

#[test]
fn civil_dates() {
    assert_eq!(civil_from_days(0), (1970, 1, 1));
    assert_eq!(civil_from_days(59), (1970, 3, 1));
    assert_eq!(civil_from_days(11016), (2000, 2, 29));
    assert_eq!(civil_from_days(-1), (1969, 12, 31));
    assert_eq!(civil_from_days(20690), (2026, 8, 25));
}

#[test]
fn utc_timestamps() {
    assert_eq!(utc_timestamp(0), "1970-01-01T00:00:00Z");
    assert_eq!(utc_timestamp(1787616000), "2026-08-25T00:00:00Z");
    assert_eq!(utc_timestamp(951782399), "2000-02-28T23:59:59Z");
    assert_eq!(utc_timestamp(-1), "1969-12-31T23:59:59Z");
}

#[test]
fn the_current_timestamp_is_well_formed_and_recent() {
    let now = current_utc_timestamp();
    assert!(validate_timestamp(&now).is_ok(), "{now}");
    assert!(now.as_str() > "2024-01-01T00:00:00Z", "{now}");
}

fn observation(path: &str, id: &str, lifecycle: &str, hash: &str, verified: bool) -> Observation {
    Observation {
        path: path.to_string(),
        object_type: history_object_type(path).unwrap_or("unknown").to_string(),
        id: id.to_string(),
        lifecycle: lifecycle.to_string(),
        hash: hash.to_string(),
        verified,
    }
}

fn messages(ds: Vec<Diagnostic>) -> Vec<String> {
    ds.into_iter().map(|d| d.message).collect()
}

#[test]
fn history_object_types() {
    assert_eq!(history_object_type("okf/entities/beatmap.md"), Some("entity"));
    assert_eq!(history_object_type("okf/references/a/b.md"), Some("reference"));
    assert_eq!(history_object_type("okf/entities/beatmap.txt"), None);
    assert_eq!(history_object_type("okf/index.md"), None);
    assert_eq!(history_object_type("docs/entities/x.md"), None);
}

#[test]
fn history_reports_illegal_transitions_and_moves() {
    let mut h = History::new();
    let first = h.observe(observation("okf/entities/a.md", "entity.a", "active", "h1", true));
    assert!(first.is_empty());
    assert!(h.finish_commit().is_empty());
    let second = h.observe(observation("okf/concepts/b.md", "entity.a", "draft", "h2", false));
    assert_eq!(
        messages(second),
        vec![
            "ID entity.a changed type from entity to concept".to_string(),
            "illegal lifecycle transition for entity.a: active -> draft".to_string(),
            "verified identity mutated for entity.a".to_string(),
            "durable ID entity.a moved from okf/entities/a.md to okf/concepts/b.md".to_string(),
        ]
    );
    assert!(h.finish_commit().is_empty());
}

#[test]
fn history_reports_deletion_and_reuse() {
    let mut h = History::new();
    h.observe(observation("okf/entities/a.md", "entity.a", "active", "h1", false));
    h.observe(observation("okf/entities/b.md", "entity.b", "draft", "h1", false));
    assert!(h.finish_commit().is_empty());
    let deleted = h.finish_commit();
    assert_eq!(deleted.len(), 1);
    assert_eq!(deleted[0].path, "okf");
    assert_eq!(deleted[0].message, "durable ID entity.a was deleted from repository history");
    let reused = h.observe(observation("okf/entities/a.md", "entity.a", "active", "h1", false));
    assert_eq!(messages(reused), vec!["durable ID entity.a was reused after deletion".to_string()]);
    h.finish_commit();
    h.finish_commit();
    let later = messages(h.observe(observation("okf/concepts/a.md", "entity.a", "draft", "h2", false)));
    assert_eq!(later[0], "durable ID entity.a was reused after deletion");
}

#[test]
fn history_forward_transitions_are_quiet() {
    let mut h = History::new();
    h.observe(observation("okf/entities/a.md", "entity.a", "draft", "h1", false));
    h.finish_commit();
    assert!(h.observe(observation("okf/entities/moved.md", "entity.a", "active", "h2", false)).is_empty());
    h.finish_commit();
    assert!(h.observe(observation("okf/entities/moved.md", "entity.a", "deprecated", "h2", false)).is_empty());
}

#[test]
fn cycle_detection_ignores_edge_order_and_repeats() {
    let edges = strings(&["a>b", "x", "b>c", "c>a"]);
    let reordered = strings(&["c>a", "b>c", "a>b", "c>a", "x"]);
    assert!(has_cycle(&edges));
    assert_eq!(has_cycle(&edges), has_cycle(&reordered));
    let open = strings(&["b>c", "a>b"]);
    assert_eq!(has_cycle(&open), has_cycle(&strings(&["a>b", "b>c", "a>b"])));
    assert!(!has_cycle(&open));
}

#[test]
fn normalized_bodies_have_clean_lines_and_one_final_newline() {
    for body in ["a \t\n  b\t\n\n \n", "x", "\n\n\t\n", "p\n\nq  "] {
        let n = normalize_body(body);
        assert!(n.is_empty() || (n.ends_with('\n') && !n.ends_with("\n\n")), "{n:?}");
        assert!(n.lines().all(|l| !l.ends_with(' ') && !l.ends_with('\t')), "{n:?}");
        let expected: Vec<&str> = {
            let mut v: Vec<&str> = body.lines().map(|l| l.trim_end_matches([' ', '\t'])).collect();
            while v.last().is_some_and(|l| l.is_empty()) {
                v.pop();
            }
            v
        };
        assert_eq!(n.lines().collect::<Vec<&str>>(), expected);
    }
}

#[test]
fn json_reports_list_code_severity_path_and_message() {
    let ds = vec![Diagnostic { path: "okf".to_string(), message: "depends_on cycle detected".to_string() }];
    assert_eq!(
        diagnostics_json(&ds).unwrap(),
        "[\n  {\n    \"code\": \"OKF-E111\",\n    \"message\": \"depends_on cycle detected\",\n    \"path\": \"okf\",\n    \"severity\": \"ERROR\"\n  }\n]"
    );
    assert_eq!(diagnostics_json(&[]).unwrap(), "[]");
    let rs = vec![SourceResult {
        path: "okf/references/a.md".to_string(),
        severity: "WARNING".to_string(),
        message: "snapshot drift".to_string(),
    }];
    assert_eq!(
        source_results_json(&rs).unwrap(),
        "[\n  {\n    \"code\": \"OKF-W013\",\n    \"message\": \"snapshot drift\",\n    \"path\": \"okf/references/a.md\",\n    \"severity\": \"WARNING\"\n  }\n]"
    );
}
