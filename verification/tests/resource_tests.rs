use nanocl_core::errors::ErrorKind;
use nanocl_core::json::Json;
use nanocl_core::resource::{hook_create_resource, HookAction, ResourceKindTable,
    ResourcePartial};

fn obj(fields: Vec<(&str, Json)>) -> Json {
    Json::Obj(fields.into_iter().map(|(k, v)| (k.to_string(), v)).collect())
}

fn proxy_rule_kind_payload() -> ResourcePartial {
    // a ResourceKind whose schema demands a `listen` field
    let schema = obj(vec![
        ("type", Json::Str("object".to_string())),
        ("required", Json::Arr(vec![Json::Str("listen".to_string())])),
    ]);
    ResourcePartial {
        name: "ProxyRule".to_string(),
        kind: "Kind".to_string(),
        version: "v1".to_string(),
        config: obj(vec![("Schema", schema)]),
    }
}

/// Registering `ProxyRule v1` with a schema requiring `listen`, then
/// creating a resource with an empty config: rejected as a bad request whose
/// note names the missing field.
#[test]
fn schema_validation_reports_missing_field() {
    let mut kinds = ResourceKindTable::new();
    let kind_payload = proxy_rule_kind_payload();
    let act = hook_create_resource(&mut kinds, &kind_payload).expect("kind registered");
    assert!(matches!(act, HookAction::StoreAsIs));
    let resource = ResourcePartial {
        name: "my-rule".to_string(),
        kind: "ProxyRule".to_string(),
        version: "v1".to_string(),
        config: obj(vec![]),
    };
    let e = hook_create_resource(&mut kinds, &resource).unwrap_err();
    assert_eq!(e.kind, ErrorKind::BadRequest);
    assert_eq!(e.status_code(), 400);
    assert!(e.message().contains("listen"), "note was: {}", e.message());
}

#[test]
fn valid_config_passes_schema() {
    let mut kinds = ResourceKindTable::new();
    hook_create_resource(&mut kinds, &proxy_rule_kind_payload()).unwrap();
    let resource = ResourcePartial {
        name: "my-rule".to_string(),
        kind: "ProxyRule".to_string(),
        version: "v1".to_string(),
        config: obj(vec![("listen", Json::Str("0.0.0.0:80".to_string()))]),
    };
    let act = hook_create_resource(&mut kinds, &resource).expect("valid");
    assert!(matches!(act, HookAction::StoreAsIs));
}

/// Creating a `Kind` resource twice: the kind list gains the name once, a
/// version row is appended each call.
#[test]
fn kind_creation_idempotent_on_kind_appends_versions() {
    let mut kinds = ResourceKindTable::new();
    hook_create_resource(&mut kinds, &proxy_rule_kind_payload()).unwrap();
    hook_create_resource(&mut kinds, &proxy_rule_kind_payload()).unwrap();
    assert_eq!(kinds.kinds.len(), 1);
    assert_eq!(kinds.kinds[0], "ProxyRule");
    assert_eq!(kinds.versions.len(), 2);
}

#[test]
fn kind_without_schema_or_url_is_rejected() {
    let mut kinds = ResourceKindTable::new();
    let payload = ResourcePartial {
        name: "Empty".to_string(),
        kind: "Kind".to_string(),
        version: "v1".to_string(),
        config: obj(vec![]),
    };
    let e = hook_create_resource(&mut kinds, &payload).unwrap_err();
    assert_eq!(e.kind, ErrorKind::BadRequest);
    assert_eq!(e.message(), "Neither schema nor url provided");
}

#[test]
fn unknown_kind_is_notfound() {
    let mut kinds = ResourceKindTable::new();
    let resource = ResourcePartial {
        name: "r".to_string(),
        kind: "Nowhere".to_string(),
        version: "v1".to_string(),
        config: obj(vec![]),
    };
    let e = hook_create_resource(&mut kinds, &resource).unwrap_err();
    assert_eq!(e.kind, ErrorKind::NotFound);
}

/// A kind whose version carries a controller URL delegates the apply.
#[test]
fn url_kind_delegates_apply() {
    let mut kinds = ResourceKindTable::new();
    let payload = ResourcePartial {
        name: "DnsRule".to_string(),
        kind: "Kind".to_string(),
        version: "v1.0".to_string(),
        config: obj(vec![("Url", Json::Str("unix:///run/nanocl/proxy.sock".to_string()))]),
    };
    hook_create_resource(&mut kinds, &payload).unwrap();
    let resource = ResourcePartial {
        name: "my-dns".to_string(),
        kind: "DnsRule".to_string(),
        version: "v1.0".to_string(),
        config: obj(vec![]),
    };
    match hook_create_resource(&mut kinds, &resource).unwrap() {
        HookAction::Apply { url } => assert_eq!(url, "unix:///run/nanocl/proxy.sock"),
        HookAction::StoreAsIs => panic!("expected delegation"),
    }
    // the delete hook names the same controller
    match nanocl_core::resource::hook_delete_resource(
        &kinds,
        &"DnsRule".to_string(),
        &"v1.0".to_string(),
    ) {
        nanocl_core::resource::DeleteAction::CallController { url } => {
            assert_eq!(url, "unix:///run/nanocl/proxy.sock")
        }
        nanocl_core::resource::DeleteAction::Plain => panic!("expected controller call"),
    }
}

/// The resource store: create conflicts on an existing name, delete is
/// NotFound once the row is gone, and a controller's answer replaces the
/// config before the write.
#[test]
fn resource_rows_conflict_and_substitution() {
    let mut resources = nanocl_core::resource::ResourceTable::new();
    let first = ResourcePartial {
        name: "my-rule".to_string(),
        kind: "ProxyRule".to_string(),
        version: "v1".to_string(),
        config: obj(vec![("listen", Json::Str("0.0.0.0:80".to_string()))]),
    };
    resources.insert_resource(first).unwrap();
    let again = ResourcePartial {
        name: "my-rule".to_string(),
        kind: "ProxyRule".to_string(),
        version: "v1".to_string(),
        config: obj(vec![]),
    };
    let e = resources.insert_resource(again).unwrap_err();
    assert_eq!(e.kind, ErrorKind::Conflict);
    // the controller answered a different config: it is what gets stored
    let client_view = ResourcePartial {
        name: "other".to_string(),
        kind: "ProxyRule".to_string(),
        version: "v1".to_string(),
        config: obj(vec![("listen", Json::Str("0.0.0.0:80".to_string()))]),
    };
    let answered = obj(vec![("listen", Json::Str("0.0.0.0:443".to_string()))]);
    let stored = nanocl_core::resource::apply_controller_config(client_view, answered);
    assert_eq!(stored.name, "other");
    assert_eq!(
        nanocl_core::json_text::to_text(&stored.config),
        "{\"listen\":\"0.0.0.0:443\"}"
    );
    resources.insert_resource(stored).unwrap();
    resources.remove_resource(&"my-rule".to_string()).unwrap();
    assert_eq!(resources.rows.len(), 1);
    let missing = resources.remove_resource(&"my-rule".to_string()).unwrap_err();
    assert_eq!(missing.kind, ErrorKind::NotFound);
}

/// A non-string `Url` field is taken as its printed text.
#[test]
fn url_field_stringified() {
    let config = obj(vec![("Url", Json::Num(8585))]);
    let url = nanocl_core::resource::extract_url(&config).expect("present");
    assert_eq!(url, "8585");
}
