use map_analyzer::okf::contracts::{validate_document_with_registries, validate_type_contract};
use map_analyzer::okf::document::{route_frontmatter, SemanticDocument};
use map_analyzer::okf::history::observation_of;
use map_analyzer::okf::sources::{check_scope, source_in_scope};
use map_analyzer::okf::edges::{relation_slots, validate_graph};
use map_analyzer::okf::fields::{require, string_field, validate_freshness, validate_generated, validate_verified};
use map_analyzer::okf::registries::{
    parse_relation_registry, parse_type_registry, registries_from_documents, validate_registries, Registries,
    TypeRule,
};
use map_analyzer::okf::relations::{find_relation_rule, validate_relation_sequence, validate_selectors};
use map_analyzer::okf::validate::{
    directory_for, is_semantic_type, valid_decision_key, valid_slug, validate_directory_type, validate_filename,
    validate_hash, validate_id, validate_lifecycle, validate_sha, validate_timestamp,
};
use map_analyzer::okf::rehash::rehash;
use map_analyzer::okf::views::{retrieve, review_items, review_lines};
use map_analyzer::okf::yaml::Yaml;

fn to_yaml(v: &serde_yaml::Value) -> Yaml {
    match v {
        serde_yaml::Value::Null => Yaml::Null,
        serde_yaml::Value::Bool(b) => Yaml::Bool(*b),
        serde_yaml::Value::Number(n) => {
            if let Some(i) = n.as_i64() {
                Yaml::Int(i)
            } else if let Some(u) = n.as_u64() {
                Yaml::UInt(u)
            } else {
                let f = serde_json::Value::from(n.as_f64().unwrap_or(f64::NAN));
                Yaml::Float(serde_json::to_string(&f).unwrap())
            }
        }
        serde_yaml::Value::String(s) => Yaml::Str(s.clone()),
        serde_yaml::Value::Sequence(items) => Yaml::List(items.iter().map(to_yaml).collect()),
        serde_yaml::Value::Mapping(m) => {
            Yaml::Mapping(m.iter().map(|(k, v)| (to_yaml(k), to_yaml(v))).collect())
        }
        serde_yaml::Value::Tagged(t) => Yaml::Tagged(t.tag.to_string(), Box::new(to_yaml(&t.value))),
    }
}

fn yaml(text: &str) -> Yaml {
    to_yaml(&serde_yaml::from_str::<serde_yaml::Value>(text).unwrap())
}

const RELATIONS: &str = "relations:
  - name: supported_by
    inverse: supports
    source_claim: true
    target_claim: true
    source_types: [research, concept, decision]
    target_types: [reference, research]
    selectors: true
    self_edges: forbidden
    acyclic: false
  - name: depends_on
    inverse: required_by
    source_claim: false
    target_claim: false
    source_types: [concept, system, entity]
    target_types: [concept, system, entity]
    selectors: false
    self_edges: forbidden
    acyclic: true
  - name: supersedes
    inverse: superseded_by
    source_claim: true
    target_claim: true
    source_types: [decision, concept]
    target_types: [decision, concept]
    selectors: false
    self_edges: forbidden
    acyclic: true
";

const TYPES: &str = "types:
  - name: entity
    required_fields: [title]
    forbidden_fields: []
    canonical_claims: false
    active_sections: [Definition]
  - name: concept
    required_fields: [title]
    forbidden_fields: [source]
    canonical_claims: false
    active_sections: []
  - name: system
    required_fields: [title]
    forbidden_fields: []
    canonical_claims: true
    active_sections: []
  - name: research
    required_fields: [title]
    forbidden_fields: []
    canonical_claims: true
    active_sections: []
  - name: decision
    required_fields: [title]
    forbidden_fields: []
    canonical_claim: decision_claim
    canonical_claims: false
    active_sections: []
  - name: reference
    required_fields: [title, source]
    forbidden_fields: [claims]
    canonical_claims: false
    active_sections: []
";

fn registries() -> Registries {
    registries_from_documents(&yaml(RELATIONS), &yaml(TYPES)).unwrap()
}

fn rule(name: &str) -> TypeRule {
    let types = parse_type_registry(&yaml(TYPES)).unwrap();
    let (_, r) = types.into_iter().find(|(n, _)| n == name).unwrap();
    r
}

fn doc(path: &str, frontmatter: &str, body: &str) -> SemanticDocument {
    SemanticDocument { path: path.to_string(), frontmatter: yaml(frontmatter), body: body.to_string() }
}

#[test]
fn slugs_and_decision_keys_follow_their_alphabets() {
    assert!(valid_slug("depends_on"));
    assert!(valid_slug("a1"));
    assert!(!valid_slug(""));
    assert!(!valid_slug("_depends"));
    assert!(!valid_slug("depends_"));
    assert!(!valid_slug("Depends"));
    assert!(!valid_slug("depends-on"));
    assert!(valid_decision_key("analysis.aim-model"));
    assert!(!valid_decision_key(""));
    assert!(!valid_decision_key(".analysis"));
    assert!(!valid_decision_key("analysis-"));
    assert!(!valid_decision_key("analysis..aim"));
    assert!(!valid_decision_key("analysis.-aim"));
    assert!(!valid_decision_key("analysis_aim"));
}

#[test]
fn ids_file_names_and_directories_are_checked() {
    assert!(validate_id("entity.beatmap", "entity").is_ok());
    assert!(validate_id("entity.beatmap-set", "entity").is_ok());
    assert_eq!(validate_id("entity", "entity").unwrap_err(), "id must have the form <type>.<slug>");
    assert_eq!(
        validate_id("concept.beatmap", "entity").unwrap_err(),
        "id must match its type and use a lowercase kebab-case slug"
    );
    assert_eq!(
        validate_id("entity.Beatmap", "entity").unwrap_err(),
        "id must match its type and use a lowercase kebab-case slug"
    );
    assert!(validate_id("entity.beatmap.v2", "entity").is_err());
    assert!(validate_filename("beatmap-set").is_ok());
    for bad in ["", "Beatmap", "beatmap_set", "-beatmap", "beatmap-", "beat--map"] {
        assert_eq!(validate_filename(bad).unwrap_err(), "filename must be lowercase ASCII kebab-case");
    }
    assert!(is_semantic_type("reference"));
    assert!(!is_semantic_type("widget"));
    assert_eq!(directory_for("entity"), "entities");
    assert_eq!(directory_for("research"), "research");
    assert_eq!(directory_for("reference"), "references");
    assert!(validate_directory_type("decisions", "decision").is_ok());
    assert_eq!(
        validate_directory_type("concepts", "entity").unwrap_err(),
        "object of type entity must be inside okf/entities"
    );
}

#[test]
fn lifecycles_timestamps_and_hashes_have_fixed_shapes() {
    for good in ["draft", "active", "deprecated"] {
        assert!(validate_lifecycle(good).is_ok());
    }
    assert_eq!(validate_lifecycle("retired").unwrap_err(), "lifecycle must be draft, active, or deprecated");
    assert!(validate_timestamp("2026-08-25T00:00:00Z").is_ok());
    for bad in ["2026-08-25T00:00:00", "2026-08-25 00:00:00Z", "2026-8-25T00:00:00Z", "2026-08-25T00:00:00+00:00"] {
        assert_eq!(
            validate_timestamp(bad).unwrap_err(),
            "timestamp must be quoted UTC RFC3339 in YYYY-MM-DDTHH:MM:SSZ form"
        );
    }
    let hash = format!("sha256:{}", "0123456789abcdef".repeat(4));
    assert!(validate_hash(&hash).is_ok());
    assert!(validate_hash(&hash.to_uppercase()).is_err());
    assert_eq!(
        validate_hash("sha256:abc").unwrap_err(),
        "hash must be sha256:<64 lowercase hexadecimal characters>"
    );
    assert!(validate_sha(&"0a".repeat(20), "commit").is_ok());
    assert_eq!(
        validate_sha(&"0A".repeat(20), "commit").unwrap_err(),
        "commit must be a 40-character lowercase hexadecimal Git SHA-1"
    );
}

#[test]
fn required_and_string_fields() {
    let map = yaml("title: Beatmap\ncount: 3\n");
    assert!(require(&map, "count").is_ok());
    assert_eq!(require(&map, "id").unwrap_err(), "missing required field: id");
    assert_eq!(string_field(&map, "title").unwrap(), "Beatmap");
    assert_eq!(string_field(&map, "count").unwrap_err(), "count must be a string");
}

#[test]
fn generated_freshness_and_verified_records() {
    assert!(validate_generated(Some(&yaml("by: agent:tool\nat: '2026-08-25T00:00:00Z'"))).is_ok());
    assert_eq!(validate_generated(None).unwrap_err(), "generated must be a mapping");
    assert_eq!(validate_generated(Some(&yaml("at: x"))).unwrap_err(), "generated.by must be a string");
    assert_eq!(validate_generated(Some(&yaml("by: agent:tool"))).unwrap_err(), "generated.at must be a string");
    assert_eq!(
        validate_generated(Some(&yaml("by: someone\nat: '2026-08-25T00:00:00Z'"))).unwrap_err(),
        "generated.by must use a human:, agent:, or process: actor"
    );
    assert!(validate_freshness(None).is_ok());
    assert!(validate_freshness(Some(&yaml("state: unknown"))).is_ok());
    assert!(validate_freshness(Some(&yaml("state: fresh\nchecked_at: '2026-08-25T00:00:00Z'"))).is_ok());
    assert_eq!(validate_freshness(Some(&yaml("[]"))).unwrap_err(), "freshness must be a mapping");
    assert_eq!(validate_freshness(Some(&yaml("checked_at: x"))).unwrap_err(), "freshness.state is required");
    assert_eq!(validate_freshness(Some(&yaml("state: rotten"))).unwrap_err(), "freshness.state is invalid");
    assert_eq!(
        validate_freshness(Some(&yaml("state: fresh"))).unwrap_err(),
        "fresh freshness requires checked_at"
    );
    assert_eq!(
        validate_freshness(Some(&yaml("state: stale\nreason: moved"))).unwrap_err(),
        "stale freshness requires detected_at"
    );
    assert_eq!(
        validate_freshness(Some(&yaml("state: stale\ndetected_at: '2026-08-25T00:00:00Z'"))).unwrap_err(),
        "stale freshness requires reason"
    );
    let revision = format!("sha256:{}", "a".repeat(64));
    let good = yaml(&format!(
        "- by: human:ana\n  at: '2026-08-25T00:00:00Z'\n  subject:\n    object: entity.beatmap\n  revision: {revision}\n"
    ));
    assert!(validate_verified(&good).is_ok());
    assert_eq!(validate_verified(&yaml("by: x")).unwrap_err(), "verified must be a list");
    assert_eq!(
        validate_verified(&yaml("- text")).unwrap_err(),
        "each verification attestation must be a mapping"
    );
    assert_eq!(
        validate_verified(&yaml("- by: human:ana\n  at: x\n  subject: {}\n")).unwrap_err(),
        "missing required field: revision"
    );
    let anonymous = yaml(&format!(
        "- by: ana\n  at: '2026-08-25T00:00:00Z'\n  subject: {{}}\n  revision: {revision}\n"
    ));
    assert_eq!(validate_verified(&anonymous).unwrap_err(), "verification by must use an actor ID");
    let flat = yaml(&format!(
        "- by: human:ana\n  at: '2026-08-25T00:00:00Z'\n  subject: entity.beatmap\n  revision: {revision}\n"
    ));
    assert_eq!(validate_verified(&flat).unwrap_err(), "verification subject must be a mapping");
}

#[test]
fn registries_load_sorted_and_checked() {
    let registries = registries();
    let names: Vec<&str> = registries.relations.iter().map(|(n, _)| n.as_str()).collect();
    assert_eq!(names, vec!["depends_on", "supersedes", "supported_by"]);
    let types: Vec<&str> = registries.types.iter().map(|(n, _)| n.as_str()).collect();
    assert_eq!(types, vec!["concept", "decision", "entity", "reference", "research", "system"]);
    let depends = find_relation_rule(&registries.relations, "depends_on").unwrap();
    assert_eq!(depends.inverse, "required_by");
    assert!(depends.acyclic && depends.self_edges_forbidden && !depends.selectors);
    assert!(find_relation_rule(&registries.relations, "mentions").is_none());
    assert_eq!(rule("decision").canonical_claim.as_deref(), Some("decision_claim"));
    assert_eq!(rule("entity").canonical_claim, None);
}

#[test]
fn registry_documents_are_rejected_with_their_first_problem() {
    assert_eq!(
        parse_relation_registry(&yaml("other: []")).unwrap_err(),
        "relations registry must contain a relations sequence"
    );
    assert_eq!(
        parse_relation_registry(&yaml("relations: [x]")).unwrap_err(),
        "each relation registry entry must be a mapping"
    );
    let duplicate = format!("{RELATIONS}  - name: depends_on\n    inverse: other\n");
    assert_eq!(
        parse_relation_registry(&yaml(&duplicate)).unwrap_err(),
        "invalid or duplicate relation name: depends_on"
    );
    assert_eq!(
        parse_relation_registry(&yaml("relations:\n  - name: Bad\n")).unwrap_err(),
        "invalid or duplicate relation name: Bad"
    );
    assert_eq!(
        parse_relation_registry(&yaml("relations:\n  - name: cites\n    inverse: cited_by\n")).unwrap_err(),
        "source_claim must be a boolean"
    );
    assert_eq!(
        parse_type_registry(&yaml("types:\n  - name: widget\n")).unwrap_err(),
        "invalid or duplicate semantic type: widget"
    );
    assert_eq!(parse_type_registry(&yaml("kinds: []")).unwrap_err(), "types registry must contain a types sequence");
    let relations = parse_relation_registry(&yaml(RELATIONS)).unwrap();
    let five = parse_type_registry(&yaml(&TYPES.replace("  - name: system\n", "  - name: entity_\n"))).err();
    assert_eq!(five.unwrap(), "invalid or duplicate semantic type: entity_");
    let mut types = parse_type_registry(&yaml(TYPES)).unwrap();
    types.pop();
    assert_eq!(
        validate_registries(&relations, &types).unwrap_err(),
        "types registry must define each of the six semantic types exactly once"
    );
    let types = parse_type_registry(&yaml(TYPES)).unwrap();
    assert!(validate_registries(&relations, &types).is_ok());
    let authored_inverse = RELATIONS.replace("inverse: required_by", "inverse: supersedes");
    assert_eq!(
        validate_registries(&parse_relation_registry(&yaml(&authored_inverse)).unwrap(), &types).unwrap_err(),
        "relation depends_on has an invalid or authored inverse"
    );
    let shared_inverse = RELATIONS.replace("inverse: superseded_by", "inverse: required_by");
    assert_eq!(
        validate_registries(&parse_relation_registry(&yaml(&shared_inverse)).unwrap(), &types).unwrap_err(),
        "relation inverse names must be unique: required_by"
    );
    let self_edges = RELATIONS.replacen("self_edges: forbidden", "self_edges: allowed", 2);
    assert_eq!(
        validate_registries(&parse_relation_registry(&yaml(&self_edges)).unwrap(), &types).unwrap_err(),
        "relation depends_on must forbid exact self-edges"
    );
    let unknown = RELATIONS.replace("[concept, system, entity]\n    selectors", "[concept, widget]\n    selectors");
    assert_eq!(
        validate_registries(&parse_relation_registry(&yaml(&unknown)).unwrap(), &types).unwrap_err(),
        "relation depends_on contains an unknown endpoint type"
    );
}

#[test]
fn relations_are_checked_against_their_rules() {
    let registries = registries();
    let rels = &registries.relations;
    let check = |text: &str, source: &str, claim: bool| validate_relation_sequence(&yaml(text), source, claim, rels);
    assert!(check("- type: depends_on\n  target:\n    object: system.engine\n", "concept", false).is_ok());
    assert_eq!(check("type: depends_on", "concept", false).unwrap_err(), "relations must be a sequence");
    assert_eq!(check("- depends_on", "concept", false).unwrap_err(), "each relation must be a mapping");
    assert_eq!(check("- target: {}", "concept", false).unwrap_err(), "type must be a string");
    assert_eq!(check("- type: mentions", "concept", false).unwrap_err(), "unknown authored relation: mentions");
    assert_eq!(
        check("- type: depends_on\n  target:\n    object: system.engine\n", "concept", true).unwrap_err(),
        "relation depends_on cannot originate from a claim"
    );
    assert_eq!(
        check("- type: depends_on\n  target:\n    object: system.engine\n", "research", false).unwrap_err(),
        "relation depends_on cannot originate from research"
    );
    assert_eq!(
        check("- type: depends_on\n  target: system.engine\n", "concept", false).unwrap_err(),
        "relation target must be a mapping"
    );
    assert_eq!(
        check("- type: depends_on\n  target:\n    claim: x\n", "concept", false).unwrap_err(),
        "object must be a string"
    );
    assert!(check("- type: depends_on\n  target:\n    object: reference.source\n", "concept", false)
        .unwrap_err()
        .contains("cannot target reference"));
    assert_eq!(
        check("- type: supersedes\n  target:\n    object: concept.old\n", "decision", false).unwrap_err(),
        "supersedes must connect the same semantic type"
    );
    assert_eq!(
        check("- type: depends_on\n  target:\n    object: system.engine\n    claim: c\n", "concept", false).unwrap_err(),
        "relation depends_on cannot target a claim"
    );
    assert_eq!(
        check("- type: supported_by\n  target:\n    object: reference.source\n    claim: c\n", "research", false)
            .unwrap_err(),
        "Reference claims are forbidden"
    );
    assert!(check(
        "- type: depends_on\n  target:\n    object: concept.other\n  selectors:\n    - kind: lines\n      start: 1\n      end: 2\n",
        "concept",
        false
    )
    .unwrap_err()
    .contains("does not allow selectors"));
    assert_eq!(
        check("- type: supported_by\n  target:\n    object: research.study\n  selectors: []\n", "research", false)
            .unwrap_err(),
        "selectors require a whole Reference target"
    );
    assert!(check(
        "- type: supported_by\n  target:\n    object: reference.source\n  selectors:\n    - kind: lines\n      start: 4\n      end: 9\n",
        "research",
        true
    )
    .is_ok());
    assert_eq!(
        check("- type: supersedes\n  target:\n    object: decision.old\n", "decision", true).unwrap_err(),
        "supersedes must connect matching address kinds"
    );
    assert!(check("- type: supersedes\n  target:\n    object: decision.old\n    claim: c\n", "decision", true).is_ok());
}

#[test]
fn selectors_are_checked_one_by_one() {
    assert!(validate_selectors(&yaml("- kind: section\n  value: Definition\n- kind: lines\n  start: 1\n  end: 1\n")).is_ok());
    assert_eq!(validate_selectors(&yaml("kind: lines")).unwrap_err(), "selectors must be a sequence");
    assert_eq!(validate_selectors(&yaml("- lines")).unwrap_err(), "each selector must be a mapping");
    assert_eq!(validate_selectors(&yaml("- start: 1")).unwrap_err(), "kind must be a string");
    assert_eq!(
        validate_selectors(&yaml("- kind: lines\n  end: 2\n")).unwrap_err(),
        "line selector start must be an integer"
    );
    assert_eq!(
        validate_selectors(&yaml("- kind: lines\n  start: 2\n  end: x\n")).unwrap_err(),
        "line selector end must be an integer"
    );
    assert_eq!(
        validate_selectors(&yaml("- kind: lines\n  start: 0\n  end: 2\n")).unwrap_err(),
        "line selector must be 1-based with end >= start"
    );
    assert_eq!(
        validate_selectors(&yaml("- kind: lines\n  start: 3\n  end: 2\n")).unwrap_err(),
        "line selector must be 1-based with end >= start"
    );
    assert_eq!(
        validate_selectors(&yaml("- kind: symbol\n  value: ''\n")).unwrap_err(),
        "selector value must not be empty"
    );
    assert_eq!(validate_selectors(&yaml("- kind: json_pointer\n")).unwrap_err(), "value must be a string");
    assert_eq!(
        validate_selectors(&yaml("- kind: page\n  value: '3'\n")).unwrap_err(),
        "selector kind must be lines, section, symbol, or json_pointer"
    );
}

#[test]
fn type_contracts_require_canonical_claims_and_sections() {
    let active_entity = doc(
        "okf/entities/beatmap.md",
        "id: entity.beatmap\ntype: entity\nlifecycle: active\n",
        "## Definition\n\nText.\n",
    );
    assert!(validate_type_contract(&active_entity, &rule("entity")).is_ok());
    let missing = doc("okf/entities/beatmap.md", "id: entity.beatmap\ntype: entity\nlifecycle: active\n", "Text.\n");
    assert_eq!(
        validate_type_contract(&missing, &rule("entity")).unwrap_err(),
        "active object is missing required section: Definition"
    );
    let draft = doc("okf/entities/beatmap.md", "id: entity.beatmap\ntype: entity\nlifecycle: draft\n", "Text.\n");
    assert!(validate_type_contract(&draft, &rule("entity")).is_ok());
    let no_lifecycle = doc("okf/entities/beatmap.md", "id: entity.beatmap\n", "");
    assert_eq!(validate_type_contract(&no_lifecycle, &rule("entity")).unwrap_err(), "lifecycle must be a string");

    let system = |fm: &str| doc("okf/systems/engine.md", fm, "");
    let claims = "claims:\n  - id: works\n    lifecycle: active\n  - id: idea\n    lifecycle: draft\n";
    assert!(validate_type_contract(
        &system(&format!("type: system\nlifecycle: active\nbehavior_claims: [works]\n{claims}")),
        &rule("system")
    )
    .is_ok());
    assert_eq!(
        validate_type_contract(&system("type: system\nlifecycle: active\n"), &rule("system")).unwrap_err(),
        "active object requires conclusion_claims"
    );
    assert_eq!(
        validate_type_contract(&system(&format!("type: system\nlifecycle: active\nbehavior_claims: []\n{claims}")), &rule("system"))
            .unwrap_err(),
        "active behavior_claims must not be empty"
    );
    assert_eq!(
        validate_type_contract(&system(&format!("type: system\nlifecycle: active\nbehavior_claims: [idea]\n{claims}")), &rule("system"))
            .unwrap_err(),
        "behavior_claims must point to active existing claims"
    );
    assert!(validate_type_contract(&system(&format!("type: system\nlifecycle: draft\nbehavior_claims: [idea]\n{claims}")), &rule("system"))
        .is_ok());
    assert_eq!(
        validate_type_contract(&system(&format!("type: system\nlifecycle: draft\nbehavior_claims: works\n{claims}")), &rule("system"))
            .unwrap_err(),
        "behavior_claims must be a sequence"
    );
    assert_eq!(
        validate_type_contract(&system(&format!("type: system\nlifecycle: draft\nbehavior_claims: [1]\n{claims}")), &rule("system"))
            .unwrap_err(),
        "behavior_claims entries must be strings"
    );
}

#[test]
fn active_decisions_need_a_load_bearing_claim_and_a_date() {
    let decision = |extra: &str| {
        doc(
            "okf/decisions/aim-model.md",
            &format!(
                "id: decision.aim-model\ntype: decision\nlifecycle: active\ndecision_key: analysis.aim-model\nclaims:\n  - id: choice\n    lifecycle: active\n    load_bearing: true\n  - id: aside\n    lifecycle: active\n{extra}"
            ),
            "",
        )
    };
    let r = rule("decision");
    assert!(validate_type_contract(&decision("decision_claim: choice\ndecided_at: '2026-08-25T00:00:00Z'\n"), &r).is_ok());
    assert_eq!(
        validate_type_contract(&decision("decided_at: '2026-08-25T00:00:00Z'\n"), &r).unwrap_err(),
        "active object requires decision_claim"
    );
    assert_eq!(
        validate_type_contract(&decision("decision_claim: missing\n"), &r).unwrap_err(),
        "decision_claim must point to an existing claim"
    );
    assert_eq!(
        validate_type_contract(&decision("decision_claim: aside\ndecided_at: '2026-08-25T00:00:00Z'\n"), &r).unwrap_err(),
        "active Decision decision_claim must be load-bearing"
    );
    assert_eq!(
        validate_type_contract(&decision("decision_claim: choice\n"), &r).unwrap_err(),
        "missing required field: decided_at"
    );
    assert_eq!(
        validate_type_contract(&decision("decision_claim: choice\ndecided_at: yesterday\n"), &r).unwrap_err(),
        "timestamp must be quoted UTC RFC3339 in YYYY-MM-DDTHH:MM:SSZ form"
    );
    let bad_key = doc(
        "okf/decisions/aim-model.md",
        "type: decision\nlifecycle: active\ndecision_key: Analysis\ndecision_claim: choice\nclaims:\n  - id: choice\n    lifecycle: active\n",
        "",
    );
    assert_eq!(
        validate_type_contract(&bad_key, &r).unwrap_err(),
        "decision_key must use lowercase dot- or hyphen-separated segments"
    );
}

fn documents() -> Vec<SemanticDocument> {
    vec![
        doc(
            "okf/concepts/alpha.md",
            "id: concept.alpha\ntype: concept\ntitle: Alpha\ndescription: The first idea.\nlifecycle: active\nfreshness:\n  state: fresh\n  checked_at: '2026-08-25T00:00:00Z'\nrelations:\n  - type: depends_on\n    target:\n      object: concept.beta\n",
            "",
        ),
        doc(
            "okf/concepts/beta.md",
            "id: concept.beta\ntype: concept\ntitle: Beta\ndescription: The second idea.\nlifecycle: draft\nfreshness:\n  state: stale\n  detected_at: '2026-08-25T00:00:00Z'\n  reason: moved\nrelations:\n  - type: depends_on\n    target:\n      object: concept.alpha\n",
            "",
        ),
        doc(
            "okf/decisions/one.md",
            "id: decision.one\ntype: decision\ntitle: One\nlifecycle: active\ndecision_key: analysis.model\n",
            "",
        ),
        doc(
            "okf/decisions/two.md",
            "id: decision.two\ntype: decision\ntitle: Two\nlifecycle: active\ndecision_key: analysis.model\nrelations:\n  - type: supersedes\n    target:\n      object: decision.gone\n",
            "",
        ),
    ]
}

#[test]
fn the_graph_reports_decisions_targets_and_cycles() {
    let docs = documents();
    let registries = registries();
    let slots = relation_slots(&docs).len();
    assert_eq!(slots, 3);
    let report: Vec<(String, String)> =
        validate_graph(&docs, &registries).into_iter().map(|d| (d.path, d.message)).collect();
    assert_eq!(
        report,
        vec![
            (
                "okf/decisions".to_string(),
                "at most one active Decision is allowed for decision_key analysis.model: decision.one, decision.two"
                    .to_string()
            ),
            ("okf".to_string(), "relation supersedes targets unknown object decision.gone".to_string()),
            ("okf".to_string(), "depends_on cycle detected".to_string()),
        ]
    );
}

#[test]
fn retrieve_finds_objects_by_id_query_and_decision_key() {
    let docs = documents();
    let args = |a: &[&str]| a.iter().map(|s| s.to_string()).collect::<Vec<String>>();
    assert_eq!(
        retrieve(&args(&["--id", "concept.alpha"]), &docs).unwrap(),
        vec!["concept.alpha [active; effective_freshness=stale] Alpha".to_string()]
    );
    assert_eq!(
        retrieve(&args(&["--query", "IDEA"]), &docs).unwrap(),
        vec![
            "concept.alpha [active; effective_freshness=stale] Alpha".to_string(),
            "concept.beta [draft; effective_freshness=stale] Beta".to_string(),
        ]
    );
    assert_eq!(retrieve(&args(&["--query", "nothing"]), &docs).unwrap(), vec!["No OKF match for nothing".to_string()]);
    assert_eq!(
        retrieve(&args(&["--decision-key", "analysis.model"]), &docs).unwrap(),
        vec!["Structural error: multiple active Decisions for decision_key analysis.model".to_string()]
    );
    assert_eq!(
        retrieve(&args(&["--decision-key", "other"]), &docs).unwrap(),
        vec!["No active Decision for decision_key other".to_string()]
    );
    assert_eq!(retrieve(&args(&["--id"]), &docs).unwrap_err(), "--id requires a value");
    assert_eq!(retrieve(&args(&[]), &docs).unwrap_err(), "retrieve requires --id, --decision-key, or --query");
}

const BASE: &str = "id: concept.alpha\ntype: concept\ntitle: Alpha\ndescription: A.\nlifecycle: draft\ncreated_at: '2026-08-25T00:00:00Z'\nupdated_at: '2026-08-25T00:00:00Z'\ngenerated:\n  by: agent:test\n  at: '2026-08-25T00:00:00Z'\n";

fn hashed(path: &str, frontmatter: &str) -> SemanticDocument {
    let body = "## Definition\n\nText.\n";
    let frontmatter = rehash(yaml(frontmatter), path, body).unwrap();
    SemanticDocument { path: path.to_string(), frontmatter, body: body.to_string() }
}

#[test]
fn documents_are_checked_against_the_registries() {
    let registries = registries();
    let good = hashed(
        "okf/concepts/alpha.md",
        &format!("{BASE}relations:\n  - type: depends_on\n    target:\n      object: concept.beta\n"),
    );
    assert_eq!(validate_document_with_registries(&good, &registries), Ok(()));
    let to_reference = hashed(
        "okf/concepts/alpha.md",
        &format!("{BASE}relations:\n  - type: depends_on\n    target:\n      object: reference.source\n"),
    );
    assert_eq!(
        validate_document_with_registries(&to_reference, &registries).unwrap_err(),
        "relation depends_on cannot target reference"
    );
    let with_source = hashed("okf/concepts/alpha.md", &format!("{BASE}source:\n  kind: artifact\n"));
    assert_eq!(
        validate_document_with_registries(&with_source, &registries).unwrap_err(),
        "concept objects must not contain source"
    );
    let claim_relation = hashed(
        "okf/concepts/alpha.md",
        &format!("{BASE}claims:\n  - id: c\n    statement: S\n    lifecycle: draft\n    load_bearing: false\n    relations:\n      - type: depends_on\n        target:\n          object: concept.beta\n"),
    );
    assert_eq!(
        validate_document_with_registries(&claim_relation, &registries).unwrap_err(),
        "relation depends_on cannot originate from a claim"
    );
    let empty = Registries { relations: Vec::new(), types: Vec::new() };
    assert_eq!(validate_document_with_registries(&good, &empty).unwrap_err(), "type registry has no rule for concept");
}

#[test]
fn review_lists_drafts_and_stale_objects() {
    let docs = documents();
    let lines = review_lines(&review_items(&docs));
    assert!(lines.contains(&"NOTICE OKF-N001 concept.beta: review condition".to_string()), "{lines:?}");
    assert!(lines.iter().all(|l| l.ends_with(": review condition")), "{lines:?}");
    assert_eq!(review_lines(&[]), vec!["OKF: no review conditions".to_string()]);
}

#[test]
fn route_front_matter_is_read_between_the_delimiters() {
    assert_eq!(route_frontmatter("---\r\nroute_id: a\r\n---\r\nBody\r\n").unwrap(), "route_id: a");
    assert_eq!(route_frontmatter("---\nx: 1\ny: 2\n---\n").unwrap(), "x: 1\ny: 2");
    assert_eq!(route_frontmatter("---\nno closing line\n"), None);
    assert_eq!(route_frontmatter("--"), None);
}

#[test]
fn observations_carry_the_front_matter_fields() {
    let fm = yaml("id: entity.a\nlifecycle: active\nsemantic_hash: h1\nverified: []\n");
    let o = observation_of(&fm, "okf/entities/a.md", "entity").unwrap();
    assert_eq!((o.path.as_str(), o.object_type.as_str(), o.id.as_str()), ("okf/entities/a.md", "entity", "entity.a"));
    assert_eq!((o.lifecycle.as_str(), o.hash.as_str(), o.verified), ("active", "h1", true));
    let bare = observation_of(&yaml("id: entity.b\nlifecycle: 3\n"), "f", "entity").unwrap();
    assert_eq!((bare.lifecycle.as_str(), bare.hash.as_str(), bare.verified), ("", "", false));
    assert!(observation_of(&yaml("title: x\n"), "f", "entity").is_none());
}

#[test]
fn source_check_scopes() {
    for ok in ["repo", "remote", "all"] {
        assert!(check_scope(ok).is_ok());
    }
    assert_eq!(check_scope("local").unwrap_err(), "--scope must be repo, remote, or all");
    let issue = yaml("kind: github_issue\n");
    let file = yaml("kind: repository_file\n");
    assert!(!source_in_scope(&issue, "repo"));
    assert!(source_in_scope(&file, "repo"));
    assert!(source_in_scope(&issue, "remote") && source_in_scope(&file, "remote"));
    assert!(source_in_scope(&issue, "all") && source_in_scope(&yaml("{}"), "repo"));
}

#[test]
fn duplicate_edges_are_told_apart_by_their_selectors() {
    let reference = doc("okf/references/source.md", "id: reference.source\ntype: reference\ntitle: Source\n", "");
    let study = doc(
        "okf/research/study.md",
        "id: research.study\ntype: research\ntitle: Study\nrelations:\n  - type: supported_by\n    target:\n      object: reference.source\n    selectors:\n      - kind: lines\n        start: 1\n        end: 2\n  - type: supported_by\n    target:\n      object: reference.source\n    selectors:\n      - kind: lines\n        start: 1\n        end: 2\n  - type: supported_by\n    target:\n      object: reference.source\n    selectors:\n      - kind: lines\n        start: 3\n        end: 4\n  - type: supported_by\n    target:\n      object: reference.source\n",
        "",
    );
    let report: Vec<(String, String)> = validate_graph(&[reference, study], &registries())
        .into_iter()
        .map(|d| (d.path, d.message))
        .collect();
    assert_eq!(
        report,
        vec![("okf".to_string(), "duplicate supported_by edge from research.study to reference.source".to_string())]
    );
}
