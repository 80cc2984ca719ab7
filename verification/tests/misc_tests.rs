use nanocl_core::engine::{attach_step, parse_host_binding, parse_image_name, AttachAction,
    AttachEvent, HostBinding, WaitResult};
use nanocl_core::errors::ErrorKind;
use nanocl_core::job::{job_next_step, job_outcome, JobStep};
use nanocl_core::json::Json;
use nanocl_core::keys::ProcessKind;
use nanocl_core::lifecycle::ObjPsStatusKind;
use nanocl_core::math::calculate_percentage;
use nanocl_core::errors::CoreError;
use nanocl_core::secret::{SecretRow, SecretTable};
use nanocl_core::proxy::{on_proxy_event, ProxyEvent, RuleAction};
use nanocl_core::cli::{DisplayFormat, LogsOpts, ProcessLogQuery};
use nanocl_core::event::{Event, EventKind};
use nanocl_core::vm_image::{VmImageKind, VmImageRow, VmImageTable};

#[test]
fn test_calculate_percentage() {
    assert_eq!(calculate_percentage(1, 10), 10);
    assert_eq!(calculate_percentage(5, 10), 50);
    assert_eq!(calculate_percentage(10, 10), 100);
}

#[test]
fn percentage_rounds_half_up() {
    assert_eq!(calculate_percentage(0, 7), 0);
    assert_eq!(calculate_percentage(1, 8), 13);
    assert_eq!(calculate_percentage(1, 200), 1);
    assert_eq!(calculate_percentage(1, 201), 0);
    // a value over the total answers more than a hundred
    assert_eq!(calculate_percentage(10, 5), 200);
    // a quotient beyond the result type saturates
    assert_eq!(calculate_percentage(u64::MAX, 1), u64::MAX);
}

/// A server binds a Unix socket or a TCP address.
#[test]
fn generate_unix_and_tcp() {
    match parse_host_binding("unix:///tmp/ncdns.sock").unwrap() {
        HostBinding::Unix(p) => assert_eq!(p, "/tmp/ncdns.sock"),
        HostBinding::Tcp(_) => panic!("expected a unix binding"),
    }
    match parse_host_binding("tcp://0.0.0.0:9987").unwrap() {
        HostBinding::Tcp(a) => assert_eq!(a, "0.0.0.0:9987"),
        HostBinding::Unix(_) => panic!("expected a tcp binding"),
    }
}

#[test]
fn generate_wrong_host() {
    let server = parse_host_binding("wrong://dsadsa");
    assert!(server.is_err());
    match server {
        Err(e) => assert_eq!(e.kind, ErrorKind::BadRequest),
        Ok(_) => unreachable!(),
    }
}

/// A job of two containers where the second exits non-zero: the job fails
/// and nothing further starts.
#[test]
fn job_fails_at_first_nonzero_exit() {
    let outcome = job_outcome(&vec![0, 1]);
    assert_eq!(outcome.status, ObjPsStatusKind::Fail);
    assert_eq!(outcome.started, 2);
    assert_eq!(job_next_step(2, 0, 0), JobStep::RunNext { index: 1 });
    assert_eq!(job_next_step(2, 1, 1), JobStep::Failed);
    assert_eq!(job_next_step(2, 1, 0), JobStep::Finished);
    let ok = job_outcome(&vec![0, 0, 0]);
    assert_eq!(ok.status, ObjPsStatusKind::Finish);
    assert_eq!(ok.started, 3);
}

#[test]
fn job_instance_plan_shape() {
    let job = nanocl_core::job::Job {
        name: "backup".to_string(),
        containers: vec![],
        secrets: vec![],
        schedule: None,
    };
    let template = nanocl_core::cargo::ContainerTemplate {
        image: Some("busybox".to_string()),
        env: vec!["A=1".to_string()],
        hostname: None,
        labels: vec![],
        binds: vec![],
        network_mode: None,
        restart_policy: None,
        auto_remove: false,
    };
    let plan = nanocl_core::job::plan_job_instance(
        &job, 1, &template, &vec!["S=2".to_string()], "/state/secrets/job/backup",
        &"abc123".to_string(),
    );
    assert_eq!(plan.name, "backup-1-abc123.j");
    assert_eq!(plan.env, vec!["A=1".to_string(), "S=2".to_string()]);
    assert!(plan.labels.contains(&("io.nanocl.j".to_string(), "backup".to_string())));
    assert!(plan
        .binds
        .contains(&"/state/secrets/job/backup/:/opt/nanocl.io/secrets".to_string()));
}

/// The attach bridge's per-frame decisions.
#[test]
fn attach_bridge_steps() {
    match attach_step(AttachEvent::ClientText("ls\n".to_string())) {
        AttachAction::WriteStdin(t) => assert_eq!(t, "ls\n"),
        _ => panic!("client text goes to stdin"),
    }
    match attach_step(AttachEvent::MachineChunk(vec![1, 2, 3])) {
        AttachAction::SendFrame(c) => assert_eq!(c, vec![1, 2, 3]),
        _ => panic!("machine output crosses as a frame"),
    }
    assert!(matches!(attach_step(AttachEvent::ClientPing), AttachAction::SendPong));
    assert!(matches!(attach_step(AttachEvent::HeartbeatDue), AttachAction::SendPing));
    assert!(matches!(attach_step(AttachEvent::ClientDetach), AttachAction::Detach));
}

#[test]
fn init_wait_outcomes() {
    let ok = nanocl_core::engine::init_wait_outcome(&WaitResult {
        status_code: 0,
        error_message: None,
    });
    assert!(ok.is_ok());
    let failed = nanocl_core::engine::init_wait_outcome(&WaitResult {
        status_code: 3,
        error_message: None,
    })
    .unwrap_err();
    assert_eq!(failed.kind, ErrorKind::Interrupted);
    assert_eq!(failed.message(), "Unknown error 3");
    assert_eq!(failed.status_code(), 500);
}

#[test]
fn image_references() {
    let (name, tag) = parse_image_name("nginx:alpine").expect("splits");
    assert_eq!((name.as_str(), tag.as_str()), ("nginx", "alpine"));
    let (name, tag) = parse_image_name("busybox").expect("defaults");
    assert_eq!((name.as_str(), tag.as_str()), ("busybox", "latest"));
    let (name, tag) = parse_image_name("registry:5000/img:v2").expect("last colon");
    assert_eq!((name.as_str(), tag.as_str()), ("registry:5000/img", "v2"));
    assert!(parse_image_name("nginx:").is_err());
    assert!(parse_image_name(":tag").is_err());
    assert!(parse_image_name("").is_err());
}

#[test]
fn key_grammar() {
    assert_eq!(nanocl_core::keys::gen_key("demo", "api"), "api.demo");
    assert_eq!(nanocl_core::keys::resolve_nsp(&None), "global");
    assert_eq!(
        nanocl_core::keys::gen_kind_key(&ProcessKind::Cargo, "api", &None),
        "api.global"
    );
    assert_eq!(
        nanocl_core::keys::gen_kind_key(&ProcessKind::Job, "backup", &Some("x".to_string())),
        "backup"
    );
    assert_eq!(
        nanocl_core::keys::gen_process_name("api", "abc123", "demo", &ProcessKind::Vm),
        "api-abc123.demo.v"
    );
    assert_eq!(
        nanocl_core::keys::gen_init_name("api", "abc123", "demo"),
        "init-api-abc123.demo.c"
    );
    assert_eq!(nanocl_core::keys::gen_tmp_name("api-abc123.demo.c"), "tmp-api-abc123.demo.c");
    assert!(nanocl_core::keys::check_tmp_name("tmp-api.demo.c"));
    assert!(!nanocl_core::keys::check_tmp_name("api.demo.c"));
    assert!(nanocl_core::keys::check_suffix("abc123"));
    assert!(!nanocl_core::keys::check_suffix("abc12"));
    assert!(!nanocl_core::keys::check_suffix("abc12!"));
}

#[test]
fn error_status_codes() {
    assert_eq!(CoreError::not_found("x".to_string()).status_code(), 404);
    assert_eq!(CoreError::conflict("x".to_string()).status_code(), 409);
    assert_eq!(CoreError::bad_request("x".to_string()).status_code(), 400);
    assert_eq!(CoreError::internal("x".to_string()).status_code(), 500);
    assert_eq!(CoreError::interrupted("x".to_string()).status_code(), 500);
}

#[test]
fn env_secrets_flatten() {
    let mut table = SecretTable::new();
    table.rows.push(SecretRow {
        key: "env.demo".to_string(),
        kind: "nanocl.io/env".to_string(),
        data: Json::Arr(vec![
            Json::Str("KEY=v".to_string()),
            Json::Str("OTHER=w".to_string()),
        ]),
    });
    table.rows.push(SecretRow {
        key: "tls.demo".to_string(),
        kind: "nanocl.io/tls".to_string(),
        data: Json::Obj(vec![]),
    });
    let lines = table.load_env_secrets(&vec!["env.demo".to_string()]).unwrap();
    assert_eq!(lines, vec!["KEY=v".to_string(), "OTHER=w".to_string()]);
    // an unreferenced secret injects nothing
    let none = table.load_env_secrets(&vec![]).unwrap();
    assert!(none.is_empty());
    // a malformed env secret fails the load
    table.rows.push(SecretRow {
        key: "bad.demo".to_string(),
        kind: "nanocl.io/env".to_string(),
        data: Json::Num(1),
    });
    let e = table.load_env_secrets(&vec!["bad.demo".to_string()]).unwrap_err();
    assert_eq!(e.kind, ErrorKind::Internal);
}

#[test]
fn tls_secret_files() {
    let dir = nanocl_core::secret::gen_secret_dir("/var/lib/state", &ProcessKind::Cargo,
        "api.demo");
    assert_eq!(dir, "/var/lib/state/secrets/cargo/api.demo");
    let data = Json::Obj(vec![
        ("certificate".to_string(), Json::Str("CERT".to_string())),
        ("certificate_key".to_string(), Json::Str("KEYDATA".to_string())),
        ("certificate_client".to_string(), Json::Str("CA".to_string())),
    ]);
    let files = nanocl_core::secret::plan_tls_files("web", &data, &dir);
    assert_eq!(files.len(), 3);
    assert_eq!(files[0].0, "/var/lib/state/secrets/cargo/api.demo/web.crt");
    assert_eq!(files[0].1, "CERT");
    assert_eq!(files[1].0, "/var/lib/state/secrets/cargo/api.demo/web.key");
    assert_eq!(files[2].0, "/var/lib/state/secrets/cargo/api.demo/web.ca");
    // a secret without certificate fields materialises nothing
    let none = nanocl_core::secret::plan_tls_files("web", &Json::Obj(vec![]), &dir);
    assert!(none.is_empty());
}

#[test]
fn proxy_reactions() {
    match on_proxy_event(ProxyEvent::CargoStarted {
        name: "api".to_string(),
        namespace: "demo".to_string(),
    }) {
        RuleAction::UpdateCargoRules { name, namespace } => {
            assert_eq!((name.as_str(), namespace.as_str()), ("api", "demo"))
        }
        _ => panic!("expected a rule rewrite"),
    }
    match on_proxy_event(ProxyEvent::ResourceCreated {
        name: "r".to_string(),
        kind: "ProxyRule".to_string(),
    }) {
        RuleAction::UpdateResourceRule { name } => assert_eq!(name, "r"),
        _ => panic!("expected a rule rewrite"),
    }
    match on_proxy_event(ProxyEvent::ResourceCreated {
        name: "r".to_string(),
        kind: "Other".to_string(),
    }) {
        RuleAction::Ignore => {}
        _ => panic!("a foreign kind is ignored"),
    }
    let kinds = nanocl_core::proxy::bootstrap_rule_kinds(
        &"unix:///run/nanocl/proxy.sock".to_string(),
    );
    assert_eq!(kinds.len(), 2);
    assert_eq!(kinds[0].name, "ProxyRule");
    assert_eq!(kinds[1].name, "DnsRule");
}

#[test]
fn cli_shapes() {
    let q = ProcessLogQuery::from(LogsOpts {
        name: "api".to_string(),
        since: Some(1),
        until: None,
        tail: Some("all".to_string()),
        timestamps: true,
        follow: false,
    });
    assert_eq!(q.since, Some(1));
    assert_eq!(q.timestamps, Some(true));
    assert_eq!(q.follow, Some(false));
    assert_eq!(q.stderr, Some(true));
    assert_eq!(q.stdout, Some(true));
    assert!(q.namespace.is_none());
    assert_eq!(DisplayFormat::Yaml.label(), "yaml");
    assert_eq!(DisplayFormat::default().label(), "yaml");
    assert_eq!(DisplayFormat::Json.label(), "json");
}

/// A base image cannot go away while a snapshot references it.
#[test]
fn base_image_kept_while_snapshots_exist() {
    let mut images = VmImageTable::new();
    images
        .create_image(VmImageRow {
            name: "base1".to_string(),
            kind: VmImageKind::Base,
            parent: None,
            path: "/images/base1.img".to_string(),
            format: "qcow2".to_string(),
            size: 1024,
        })
        .unwrap();
    images
        .create_image(VmImageRow {
            name: "snap1".to_string(),
            kind: VmImageKind::Snapshot,
            parent: Some("base1".to_string()),
            path: "/images/snap1.img".to_string(),
            format: "qcow2".to_string(),
            size: 64,
        })
        .unwrap();
    let refused = images.delete_image(&"base1".to_string());
    assert_eq!(refused.unwrap_err().kind, ErrorKind::Conflict);
    images.delete_image(&"snap1".to_string()).unwrap();
    images.delete_image(&"base1".to_string()).unwrap();
    assert!(images.rows.is_empty());
    let missing = images.delete_image(&"base1".to_string());
    assert_eq!(missing.unwrap_err().kind, ErrorKind::NotFound);
}

#[test]
fn event_wire_line() {
    let e = Event {
        kind: EventKind::Warning,
        action: "download_image".to_string(),
        reason: "state_sync".to_string(),
        reporting_controller: "nanocld".to_string(),
        reporting_node: "node1".to_string(),
        actor: None,
        related: None,
        note: Some("pulling nginx:latest\nretrying".to_string()),
        metadata: None,
        at: 7,
    };
    let line = e.to_line();
    assert!(line.ends_with('\n'));
    assert_eq!(line.matches('\n').count(), 1, "one frame per line");
    let parsed: serde_json::Value = serde_json::from_str(line.trim_end()).unwrap();
    assert_eq!(parsed["Kind"], "Warning");
    assert_eq!(parsed["At"], 7);
    assert_eq!(parsed["Note"], "pulling nginx:latest\nretrying");
}
