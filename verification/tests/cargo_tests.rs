use nanocl_core::cargo::{Cargo, CargoSpec, ContainerTemplate, RestartPolicy};
use nanocl_core::errors::ErrorKind;
use nanocl_core::keys::ProcessKind;
use nanocl_core::process::ProcessTable;

fn template(image: &str) -> ContainerTemplate {
    ContainerTemplate {
        image: Some(image.to_string()),
        env: vec![],
        hostname: None,
        labels: vec![],
        binds: vec![],
        network_mode: None,
        restart_policy: None,
        auto_remove: false,
    }
}

fn api_cargo() -> Cargo {
    Cargo {
        key: "api.demo".to_string(),
        name: "api".to_string(),
        namespace: "demo".to_string(),
        spec: CargoSpec {
            container: template("nginx"),
            init_container: None,
            replication: Some(2),
            secrets: vec!["env.demo".to_string()],
            image_pull_secret: None,
        },
    }
}

/// Starting a cargo with replication 2 and one env secret: two engine
/// containers under the name grammar, both owned and labelled, with the
/// secret line and the instance ordinals injected.
#[test]
fn plans_two_replicas_with_env() {
    let cargo = api_cargo();
    let secret_env = vec!["KEY=v".to_string()];
    let suffixes = vec!["abc123".to_string(), "xyz789".to_string()];
    let plans = nanocl_core::cargo::plan_instances(
        &cargo, 2, &secret_env, "node1", "10.0.0.1", "/var/lib/state/secrets/cargo/api.demo",
        &suffixes,
    )
    .expect("planned");
    assert_eq!(plans.len(), 2);
    assert_eq!(plans[0].name, "api-abc123.demo.c");
    assert_eq!(plans[1].name, "api-xyz789.demo.c");
    for (i, p) in plans.iter().enumerate() {
        assert!(p.labels.contains(&("io.nanocl.c".to_string(), "api.demo".to_string())));
        assert!(p.labels.contains(&("io.nanocl.n".to_string(), "demo".to_string())));
        assert!(p.labels.contains(&("io.nanocl.not-init-c".to_string(), "true".to_string())));
        assert!(p
            .labels
            .contains(&("com.docker.compose.project".to_string(), "nanocl_demo".to_string())));
        assert!(p.env.contains(&"KEY=v".to_string()));
        assert!(p.env.contains(&format!("NANOCL_CARGO_INSTANCE={i}")));
        assert!(p.env.contains(&"NANOCL_NODE=node1".to_string()));
        assert!(p.env.contains(&"NANOCL_NODE_ADDR=10.0.0.1".to_string()));
        assert!(p.env.contains(&"NANOCL_CARGO_KEY=api.demo".to_string()));
        assert!(p.env.contains(&"NANOCL_CARGO_NAMESPACE=demo".to_string()));
        assert_eq!(p.network_mode, "nanoclbr0");
        assert_eq!(p.restart_policy, RestartPolicy::Always);
        assert!(p
            .binds
            .contains(&"/var/lib/state/secrets/cargo/api.demo:/opt/nanocl.io/secrets".to_string()));
    }
    // the first replica's hostname has no ordinal, the second one does
    assert_eq!(plans[0].hostname, "api");
    assert_eq!(plans[1].hostname, "1api");
}

/// A specification without a replication clause runs one replica; an empty
/// secrets list injects only the built-in variables.
#[test]
fn replication_and_secrets_defaults() {
    let mut cargo = api_cargo();
    cargo.spec.replication = None;
    assert_eq!(cargo.spec.replica_count(), 1);
    cargo.spec.replication = Some(4);
    assert_eq!(cargo.spec.replica_count(), 4);
    let plans = nanocl_core::cargo::plan_instances(
        &cargo, 1, &vec![], "n", "g", "/d", &vec!["abc123".to_string()],
    )
    .expect("planned");
    // template env is empty and no secret lines: only the five built-ins
    assert_eq!(plans[0].env.len(), 5);
}

#[test]
fn auto_remove_is_rejected() {
    let mut cargo = api_cargo();
    cargo.spec.container.auto_remove = true;
    let r = nanocl_core::cargo::plan_instances(
        &cargo, 1, &vec![], "node1", "10.0.0.1", "/dir", &vec!["abc123".to_string()],
    );
    let e = match r {
        Ok(_) => panic!("auto remove must be rejected"),
        Err(e) => e,
    };
    assert_eq!(e.kind, ErrorKind::BadRequest);
    assert_eq!(e.status_code(), 400);
}

#[test]
fn init_container_plan() {
    let cargo = api_cargo();
    let init = ContainerTemplate { image: None, ..template("unused") };
    let image = nanocl_core::cargo::resolve_init_image(&cargo, &init).expect("falls back");
    assert_eq!(image, "nginx");
    let plan = nanocl_core::cargo::plan_init_container(
        &cargo, &init, &vec![], "node1", "10.0.0.1", "/dir", &"abc123".to_string(),
    );
    assert_eq!(plan.name, "init-api-abc123.demo.c");
    assert!(plan.init);
    assert!(plan.labels.contains(&("io.nanocl.init-c".to_string(), "true".to_string())));
}

/// While the cargo runs, the main-labelled processes owning its key number
/// exactly the replication.
#[test]
fn replication_count_after_start() {
    let cargo = api_cargo();
    let suffixes = vec!["abc123".to_string(), "xyz789".to_string()];
    let plans =
        nanocl_core::cargo::plan_instances(&cargo, 2, &vec![], "n", "g", "/dir", &suffixes)
            .unwrap();
    let mut table = ProcessTable::new();
    table.apply_created(
        &plans,
        &vec!["e1".to_string(), "e2".to_string()],
        &ProcessKind::Cargo,
        &cargo.key,
        &"node1".to_string(),
    );
    let n = table.count_owner_with_label(&cargo.key, "io.nanocl.not-init-c", "true");
    assert_eq!(n, 2);
}

/// The zero-downtime update: old processes are renamed `tmp-`, new ones
/// created and started; after the drain the flagged ones are deleted and no
/// `tmp-` name remains.
#[test]
fn zero_downtime_update_replaces_processes() {
    let cargo = api_cargo();
    let mut table = ProcessTable::new();
    let first =
        nanocl_core::cargo::plan_instances(&cargo, 2, &vec![], "n", "g", "/d", &vec![
            "aaa111".to_string(),
            "bbb222".to_string(),
        ])
        .unwrap();
    table.apply_created(
        &first,
        &vec!["e1".to_string(), "e2".to_string()],
        &ProcessKind::Cargo,
        &cargo.key,
        &"node1".to_string(),
    );
    // flag the old processes for deletion
    let old_keys = table.rename_owner_to_tmp(&cargo.key);
    assert_eq!(old_keys, vec!["e1".to_string(), "e2".to_string()]);
    assert!(table.rows.iter().all(|r| r.name.starts_with("tmp-")));
    // create and start the replacements
    let second =
        nanocl_core::cargo::plan_instances(&cargo, 2, &vec![], "n", "g", "/d", &vec![
            "ccc333".to_string(),
            "ddd444".to_string(),
        ])
        .unwrap();
    table.apply_created(
        &second,
        &vec!["e3".to_string(), "e4".to_string()],
        &ProcessKind::Cargo,
        &cargo.key,
        &"node1".to_string(),
    );
    // the drain window ends: the flagged processes go away
    table.delete_by_keys(&old_keys);
    assert_eq!(table.rows.len(), 2);
    assert!(table.rows.iter().all(|r| !r.name.starts_with("tmp-")));
    assert_eq!(
        table.count_owner_with_label(&cargo.key, "io.nanocl.not-init-c", "true"),
        2
    );
}

/// A failed update renames the flagged processes back.
#[test]
fn failed_update_restores_names() {
    let cargo = api_cargo();
    let mut table = ProcessTable::new();
    let first = nanocl_core::cargo::plan_instances(&cargo, 1, &vec![], "n", "g", "/d", &vec![
        "aaa111".to_string(),
    ])
    .unwrap();
    table.apply_created(
        &first,
        &vec!["e1".to_string()],
        &ProcessKind::Cargo,
        &cargo.key,
        &"node1".to_string(),
    );
    table.rename_owner_to_tmp(&cargo.key);
    assert_eq!(table.rows[0].name, "tmp-api-aaa111.demo.c");
    table.restore_owner_names(&cargo.key);
    assert_eq!(table.rows[0].name, "api-aaa111.demo.c");
}

/// Stop then start with an unchanged spec: fresh suffixes, same stems, and
/// never a `tmp-` name.
#[test]
fn restart_regenerates_names() {
    let cargo = api_cargo();
    let first = nanocl_core::cargo::plan_instances(&cargo, 2, &vec![], "n", "g", "/d", &vec![
        "aaa111".to_string(),
        "bbb222".to_string(),
    ])
    .unwrap();
    let second = nanocl_core::cargo::plan_instances(&cargo, 2, &vec![], "n", "g", "/d", &vec![
        "ccc333".to_string(),
        "ddd444".to_string(),
    ])
    .unwrap();
    for p in first.iter().chain(second.iter()) {
        let stem = p.name.split('-').next().unwrap();
        assert_eq!(stem, "api");
        assert!(!nanocl_core::keys::check_tmp_name(&p.name));
    }
}
