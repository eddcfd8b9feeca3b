use map_analyzer::okf::document::SemanticDocument;
use map_analyzer::okf::generated::{
    drift_diagnostics, render_catalog, render_curated_routes, render_graph, render_index, render_review,
    render_review_markdown,
};
use map_analyzer::okf::registries::{RelationRule, Registries};
use map_analyzer::okf::views::review_items;
use map_analyzer::okf::yaml::Yaml;

fn to_yaml(v: &serde_yaml::Value) -> Yaml {
    match v {
        serde_yaml::Value::Null => Yaml::Null,
        serde_yaml::Value::Bool(b) => Yaml::Bool(*b),
        serde_yaml::Value::Number(n) => {
            if let Some(i) = n.as_i64() {
                Yaml::Int(i)
            } else if let Some(u) = n.as_u64() {
                Yaml::UInt(u)
            } else {
                let f = serde_json::Value::from(n.as_f64().unwrap_or(f64::NAN));
                Yaml::Float(serde_json::to_string(&f).unwrap())
            }
        }
        serde_yaml::Value::String(s) => Yaml::Str(s.clone()),
        serde_yaml::Value::Sequence(items) => Yaml::List(items.iter().map(to_yaml).collect()),
        serde_yaml::Value::Mapping(m) => {
            Yaml::Mapping(m.iter().map(|(k, v)| (to_yaml(k), to_yaml(v))).collect())
        }
        serde_yaml::Value::Tagged(t) => Yaml::Tagged(t.tag.to_string(), Box::new(to_yaml(&t.value))),
    }
}

fn yaml(text: &str) -> Yaml {
    to_yaml(&serde_yaml::from_str::<serde_yaml::Value>(text).unwrap())
}

fn doc(path: &str, frontmatter: &str) -> SemanticDocument {
    SemanticDocument { path: path.to_string(), frontmatter: yaml(frontmatter), body: String::new() }
}

fn registries() -> Registries {
    let rule = RelationRule {
        inverse: "required_by".to_string(),
        source_claim: false,
        target_claim: false,
        source_types: vec!["concept".to_string(), "system".to_string()],
        target_types: vec!["concept".to_string(), "system".to_string()],
        selectors: false,
        self_edges_forbidden: true,
        acyclic: true,
    };
    Registries { relations: vec![("depends_on".to_string(), rule)], types: Vec::new() }
}

fn documents() -> Vec<SemanticDocument> {
    vec![
        doc(
            "okf/systems/zeta.md",
            "id: system.zeta\ntype: system\ntitle: Zeta\ndescription: Last.\nlifecycle: active\nrelations:\n  - type: depends_on\n    target:\n      object: concept.alpha\n    note: why\n",
        ),
        doc(
            "okf/concepts/alpha.md",
            "id: concept.alpha\ntype: concept\ntitle: Alpha\ndescription: First.\nlifecycle: draft\naliases: [a]\n",
        ),
    ]
}

#[test]
fn generated_views_are_deterministic_for_the_same_documents() {
    let registries = Registries { relations: Vec::new(), types: Vec::new() };
    let documents: Vec<SemanticDocument> = Vec::new();
    let items = review_items(&documents);
    let first = (
        render_catalog(&documents),
        render_graph(&documents, &registries),
        render_review(&documents),
        render_index(&documents, &[], &items),
    );
    let second = (
        render_catalog(&documents),
        render_graph(&documents, &registries),
        render_review(&documents),
        render_index(&documents, &[], &items),
    );
    assert_eq!(first, second);
    assert_eq!(first.0, "{\"objects\":[]}");
    assert_eq!(first.1, "{\"authored\":[],\"generated\":[]}");
    assert_eq!(first.2, "{\"items\":[]}");
}

#[test]
fn catalog_entries_are_sorted_by_type_then_id() {
    let documents = documents();
    let catalog = render_catalog(&documents);
    let value: serde_json::Value = serde_json::from_str(&catalog).unwrap();
    let objects = value["objects"].as_array().unwrap();
    assert_eq!(objects[0]["id"], "concept.alpha");
    assert_eq!(objects[0]["aliases"][0], "a");
    assert_eq!(objects[0]["path"], "okf/concepts/alpha.md");
    assert_eq!(objects[0]["effective_freshness"], "unknown");
    assert_eq!(objects[1]["id"], "system.zeta");
    let keys: Vec<&String> = objects[1].as_object().unwrap().keys().collect();
    let mut sorted = keys.clone();
    sorted.sort();
    assert_eq!(keys, sorted);
    assert!(catalog.starts_with("{\"objects\":[{\"aliases\":[\"a\"],\"description\":\"First.\""));
}

#[test]
fn graph_has_authored_and_inverse_edges() {
    let documents = documents();
    let graph = render_graph(&documents, &registries());
    assert_eq!(
        graph,
        "{\"authored\":[{\"note\":\"why\",\"path\":\"okf/systems/zeta.md\",\"relation\":\"depends_on\",\"selectors\":null,\"source\":\"system.zeta\",\"target\":\"concept.alpha\"}],\"generated\":[{\"generated_from\":\"depends_on\",\"path\":\"okf/systems/zeta.md\",\"relation\":\"required_by\",\"source\":\"concept.alpha\",\"target\":\"system.zeta\"}]}"
    );
}

#[test]
fn review_lists_drafts_and_unknown_freshness() {
    let documents = documents();
    let items = review_items(&documents);
    let review = render_review(&documents);
    let value: serde_json::Value = serde_json::from_str(&review).unwrap();
    let listed = value["items"].as_array().unwrap();
    assert_eq!(listed[0]["kind"], "draft");
    assert_eq!(listed[0]["id"], "concept.alpha");
    assert_eq!(listed[0]["message"], "draft knowledge is not settled current truth");
    assert_eq!(listed[1]["kind"], "freshness");
    assert_eq!(listed.len(), items.len());
    let markdown = render_review_markdown(&items);
    assert!(markdown.starts_with("# OKF Review\n\n> Generated. Do not edit directly.\n\n- draft concept.alpha\n"));
    assert_eq!(
        render_review_markdown(&[]),
        "# OKF Review\n\n> Generated. Do not edit directly.\n\nNo review items.\n"
    );
}

#[test]
fn index_groups_documents_by_lifecycle_and_type() {
    let documents = documents();
    let items = review_items(&documents);
    let index = render_index(&documents, &[], &items);
    assert!(index.starts_with("# map-analyzer-custom OKF Project Brain\n\n> Generated. Do not edit directly.\n\n## Curated routes\n\n- No curated routes.\n\n## Active systems\n\n- system.zeta — Zeta (Last.)\n\n## Current decisions\n\n- None.\n\n"));
    assert!(index.contains("## Draft knowledge\n\n- concept.alpha — Alpha (First.)\n\n"));
    assert!(index.ends_with("## Needs review\n\n- See generated/review.md.\n"));
    let quiet = render_index(&[], &[], &[]);
    assert!(quiet.ends_with("## Needs review\n\n- None.\n"));
}

#[test]
fn curated_routes_are_sorted_and_relative() {
    let routes = vec![
        ("okf/routes/b.md".to_string(), yaml("route_id: beta\ndescription: Second\n")),
        ("okf/routes/a.md".to_string(), yaml("route_id: alpha\ntitle: Alpha route\ndescription: First\n")),
        ("okf/routes/c.md".to_string(), yaml("title: no id\n")),
        ("other\\d.md".to_string(), yaml("route_id: delta\n")),
    ];
    assert_eq!(
        render_curated_routes(&routes),
        "- [Alpha route](routes/a.md) — First\n- [beta](routes/b.md) — Second\n- [delta](other/d.md) — \n\n"
    );
    assert_eq!(render_curated_routes(&[]), "- No curated routes.\n\n");
}

#[test]
fn drift_is_reported_per_output() {
    let checks = vec![
        ("okf/index.md".to_string(), "OKF-E420".to_string(), true),
        ("okf/generated/graph.json".to_string(), "OKF-E422".to_string(), false),
    ];
    let diagnostics = drift_diagnostics(&checks);
    assert_eq!(diagnostics.len(), 1);
    assert_eq!(diagnostics[0].path, "okf/generated/graph.json");
    assert_eq!(diagnostics[0].message, "generated output drift (OKF-E422)");
    assert_eq!(diagnostics[0].code(), "OKF-E422");
}
