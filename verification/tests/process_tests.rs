use nanocl_core::filter::{Clause, Filter};
use nanocl_core::json::Json;
use nanocl_core::keys::ProcessKind;
use nanocl_core::process::{build_process_data, ProcessRow, ProcessTable};

fn labels(ns: &str, main: bool) -> Vec<(String, String)> {
    vec![
        ("io.nanocl.n".to_string(), ns.to_string()),
        (
            if main { "io.nanocl.not-init-c" } else { "io.nanocl.init-c" }.to_string(),
            "true".to_string(),
        ),
    ]
}

fn row(key: &str, name: &str, kind_key: &str, ns: &str) -> ProcessRow {
    ProcessRow {
        key: key.to_string(),
        name: name.to_string(),
        kind: ProcessKind::Cargo,
        kind_key: kind_key.to_string(),
        node_id: "node1".to_string(),
        data: build_process_data(&labels(ns, true)),
        created_at: 0,
    }
}

fn seeded() -> ProcessTable {
    let mut t = ProcessTable::new();
    t.insert(row("id1", "nstore.system.c", "nstore.system", "system"));
    t.insert(row("id2", "ndaemon.system.c", "ndaemon.system", "system"));
    t.insert(row("id3", "api-abc123.demo.c", "api.demo", "demo"));
    t
}

#[test]
fn basic_list() {
    let t = seeded();
    let all = t.find(&Filter::none());
    assert_eq!(all.len(), 3);
    // newest first
    assert_eq!(all[0].name, "api-abc123.demo.c");
    assert_eq!(all[2].name, "nstore.system.c");
}

#[test]
fn list_by() {
    let t = seeded();
    // Filter by namespace label containment on the data column
    let pattern = Json::Obj(vec![(
        "Config".to_string(),
        Json::Obj(vec![(
            "Labels".to_string(),
            Json::Obj(vec![("io.nanocl.n".to_string(), Json::Str("system".to_string()))]),
        )]),
    )]);
    let filter = Filter {
        conditions: vec![("data".to_string(), Clause::Contains(pattern))],
        limit: None,
        offset: None,
    };
    let items = t.find(&filter);
    assert!(items.iter().any(|i| i.name == "nstore.system.c"));
    assert!(items.iter().all(|i| i.kind_key.ends_with(".system")));
    // Filter by limit and offset
    let filter = Filter { conditions: vec![], limit: Some(1), offset: Some(1) };
    let items = t.find(&filter);
    assert_eq!(items.len(), 1);
    // Filter by name and kind
    let filter = Filter {
        conditions: vec![
            ("name".to_string(), Clause::Like("nstore%".to_string())),
            ("kind".to_string(), Clause::Eq("cargo".to_string())),
        ],
        limit: None,
        offset: None,
    };
    let items = t.find(&filter);
    assert!(items.iter().any(|i| i.name == "nstore.system.c"));
    assert_eq!(items.len(), 1);
}

#[test]
fn test_inspect() {
    let t = seeded();
    let filter = Filter {
        conditions: vec![("name".to_string(), Clause::Eq("nstore.system.c".to_string()))],
        limit: None,
        offset: None,
    };
    let found = t.read_one_by(&filter).expect("basic process inspect");
    assert_eq!(found.key, "id1");
}

#[test]
fn count_by_label() {
    let t = seeded();
    let n = t.count_owner_with_label(&"nstore.system".to_string(), "io.nanocl.not-init-c", "true");
    assert_eq!(n, 1);
    let none = t.count_owner_with_label(&"nstore.system".to_string(), "io.nanocl.init-c", "true");
    assert_eq!(none, 0);
}

#[test]
fn delete_by_keys_removes_rows() {
    let mut t = seeded();
    t.delete_by_keys(&vec!["id1".to_string(), "id3".to_string()]);
    let all = t.find(&Filter::none());
    assert_eq!(all.len(), 1);
    assert_eq!(all[0].key, "id2");
}

#[test]
fn window_edges() {
    let t = seeded();
    // an offset beyond the result yields nothing
    let filter = Filter { conditions: vec![], limit: None, offset: Some(10) };
    assert!(t.find(&filter).is_empty());
    // a limit beyond the result yields everything left
    let filter = Filter { conditions: vec![], limit: Some(10), offset: Some(1) };
    assert_eq!(t.find(&filter).len(), 2);
    // a zero limit yields nothing
    let filter = Filter { conditions: vec![], limit: Some(0), offset: None };
    assert!(t.find(&filter).is_empty());
}

#[test]
fn like_patterns() {
    let m = |p: &str, s: &str| {
        nanocl_core::filter::like_matches(&p.to_string(), &s.to_string())
    };
    assert!(m("nstore%", "nstore.system.c"));
    assert!(m("%system%", "nstore.system.c"));
    assert!(m("n_tore%", "nstore.system.c"));
    assert!(!m("nstore", "nstore.system.c"));
    assert!(m("%", ""));
    assert!(!m("_", ""));
}
