use nanocl_core::errors::ErrorKind;
use nanocl_core::json::Json;
use nanocl_core::json_text::to_text;
use nanocl_core::keys::ProcessKind;
use nanocl_core::lifecycle::{NamespaceTable, NativeAction, ObjPsStatusKind, ObjectStore,
    ReconcileAction};

fn spec_doc(image: &str) -> Json {
    Json::Obj(vec![("image".to_string(), Json::Str(image.to_string()))])
}

fn seed(store: &mut ObjectStore, key: &str) {
    store
        .create_obj(
            key.to_string(),
            "api".to_string(),
            "demo".to_string(),
            ProcessKind::Cargo,
            "v1".to_string(),
            spec_doc("nginx"),
        )
        .expect("created");
}

#[test]
fn create_put_keeps_history_ordered() {
    let mut store = ObjectStore::new();
    let key = "api.demo".to_string();
    seed(&mut store, "api.demo");
    assert_eq!(store.history_len(&key).unwrap(), 1);
    store.put_obj(&key, "v1".to_string(), spec_doc("nginx:alpine")).unwrap();
    store.put_obj(&key, "v1".to_string(), spec_doc("nginx:1.25")).unwrap();
    assert_eq!(store.history_len(&key).unwrap(), 3);
    // current is the newest row
    assert_eq!(to_text(&store.read_current(&key).unwrap()), to_text(&spec_doc("nginx:1.25")));
}

#[test]
fn create_twice_conflicts() {
    let mut store = ObjectStore::new();
    seed(&mut store, "api.demo");
    let again = store.create_obj(
        "api.demo".to_string(),
        "api".to_string(),
        "demo".to_string(),
        ProcessKind::Cargo,
        "v1".to_string(),
        spec_doc("nginx"),
    );
    assert_eq!(again.unwrap_err().kind, ErrorKind::Conflict);
}

/// Put then revert: the current spec equals the previous one again, under a
/// fresh id.
#[test]
fn put_then_revert_restores_data() {
    let mut store = ObjectStore::new();
    let key = "api.demo".to_string();
    seed(&mut store, "api.demo");
    let first_id = store.current_spec_id(&key).unwrap();
    store.put_obj(&key, "v1".to_string(), spec_doc("nginx:alpine")).unwrap();
    store.revert_obj(&key, first_id).unwrap();
    let current = store.read_current(&key).unwrap();
    assert_eq!(to_text(&current), to_text(&spec_doc("nginx")));
    // history is append-only: three rows now, and the id is new
    assert_eq!(store.history_len(&key).unwrap(), 3);
    assert_ne!(store.current_spec_id(&key).unwrap(), first_id);
    // reverting to an unknown id is NotFound
    let missing = store.revert_obj(&key, 9999);
    assert_eq!(missing.unwrap_err().kind, ErrorKind::NotFound);
}

/// Deleting what does not exist answers NotFound, and keeps answering it.
#[test]
fn delete_missing_is_notfound_and_idempotent() {
    let mut store = ObjectStore::new();
    let key = "ghost.demo".to_string();
    let e1 = store.delete_obj(&key).unwrap_err();
    let e2 = store.delete_obj(&key).unwrap_err();
    assert_eq!(e1.kind, ErrorKind::NotFound);
    assert_eq!(e2.kind, ErrorKind::NotFound);
    assert_eq!(e1.status_code(), 404);
}

/// Delete drives Destroying first; once the processes are gone the row
/// leaves the store and Destroy is the last action reported.
#[test]
fn destroy_sequence_ends_with_destroy() {
    let mut store = ObjectStore::new();
    let key = "api.demo".to_string();
    seed(&mut store, "api.demo");
    let mut actions: Vec<NativeAction> = Vec::new();
    actions.push(store.delete_obj(&key).unwrap());
    assert_eq!(store.status_of(&key).unwrap().wanted, ObjPsStatusKind::Destroy);
    // the reconciler removes the processes, then clears the row
    actions.push(store.finish_destroy(&key).unwrap());
    assert_eq!(actions, vec![NativeAction::Destroying, NativeAction::Destroy]);
    assert_eq!(store.status_of(&key).unwrap_err().kind, ErrorKind::NotFound);
}

#[test]
fn put_keeps_running_objects_running() {
    let mut store = ObjectStore::new();
    let key = "api.demo".to_string();
    seed(&mut store, "api.demo");
    // not running: a put leaves the object wanting Create
    store.put_obj(&key, "v1".to_string(), spec_doc("a")).unwrap();
    assert_eq!(store.status_of(&key).unwrap().wanted, ObjPsStatusKind::Create);
    // running: a put keeps it wanting Start
    store.start_obj(&key).unwrap();
    store.set_actual(&key, ObjPsStatusKind::Start).unwrap();
    store.put_obj(&key, "v1".to_string(), spec_doc("b")).unwrap();
    assert_eq!(store.status_of(&key).unwrap().wanted, ObjPsStatusKind::Start);
}

#[test]
fn patch_merges_fields() {
    let mut store = ObjectStore::new();
    let key = "api.demo".to_string();
    seed(&mut store, "api.demo");
    let patch = Json::Obj(vec![("replicas".to_string(), Json::Num(2))]);
    store.patch_obj(&key, "v1".to_string(), &patch).unwrap();
    assert_eq!(
        to_text(&store.read_current(&key).unwrap()),
        "{\"image\":\"nginx\",\"replicas\":2}"
    );
}

#[test]
fn reconcile_table() {
    let t = |w: &ObjPsStatusKind, a: &ObjPsStatusKind, c: bool| {
        nanocl_core::lifecycle::reconcile_step(w, a, c)
    };
    let create = ObjPsStatusKind::Create;
    let start = ObjPsStatusKind::Start;
    let stop = ObjPsStatusKind::Stop;
    let destroy = ObjPsStatusKind::Destroy;
    assert_eq!(t(&create, &create, false), ReconcileAction::Keep);
    assert_eq!(t(&start, &create, false), ReconcileAction::StartProcesses);
    assert_eq!(t(&start, &stop, false), ReconcileAction::StartProcesses);
    assert_eq!(t(&start, &start, true), ReconcileAction::Replace);
    assert_eq!(t(&start, &start, false), ReconcileAction::Keep);
    assert_eq!(t(&stop, &start, false), ReconcileAction::StopProcesses);
    assert_eq!(t(&stop, &stop, false), ReconcileAction::Keep);
    assert_eq!(t(&destroy, &start, false), ReconcileAction::Teardown);
}

/// Namespaces: create, inspect by name, delete; deleting a busy one is
/// refused.
#[test]
fn namespace_basic() {
    const NAMESPACE: &str = "clientnt";
    let mut namespaces = NamespaceTable::new();
    let mut store = ObjectStore::new();
    namespaces.create_namespace(NAMESPACE.to_string()).unwrap();
    assert_eq!(namespaces.names.len(), 1);
    assert_eq!(namespaces.names[0], NAMESPACE);
    // a second create conflicts
    let again = namespaces.create_namespace(NAMESPACE.to_string());
    assert_eq!(again.unwrap_err().kind, ErrorKind::Conflict);
    // a busy namespace cannot go away
    store
        .create_obj(
            "api.clientnt".to_string(),
            "api".to_string(),
            NAMESPACE.to_string(),
            ProcessKind::Cargo,
            "v1".to_string(),
            spec_doc("nginx"),
        )
        .unwrap();
    let busy = namespaces.delete_namespace(&NAMESPACE.to_string(), &store);
    assert_eq!(busy.unwrap_err().kind, ErrorKind::Conflict);
    store.delete_obj(&"api.clientnt".to_string()).unwrap();
    store.finish_destroy(&"api.clientnt".to_string()).unwrap();
    namespaces.delete_namespace(&NAMESPACE.to_string(), &store).unwrap();
    assert_eq!(namespaces.names.len(), 0);
}

/// The history endpoint: every row in writing order, ids and stamps
/// strictly growing, data as written.
#[test]
fn history_listing_is_ordered() {
    let mut store = ObjectStore::new();
    let key = "api.demo".to_string();
    seed(&mut store, "api.demo");
    store.put_obj(&key, "v2".to_string(), spec_doc("nginx:alpine")).unwrap();
    let rows = store.list_history(&key).unwrap();
    assert_eq!(rows.len(), 2);
    assert!(rows[0].0 < rows[1].0, "ids grow with every row");
    assert_eq!(rows[0].1, "v1");
    assert_eq!(rows[1].1, "v2");
    assert_eq!(to_text(&rows[1].2), to_text(&spec_doc("nginx:alpine")));
}

/// The counting endpoint's filter: namespace plus a name pattern.
#[test]
fn counts_by_namespace_and_pattern() {
    let mut store = ObjectStore::new();
    seed(&mut store, "api.demo");
    store
        .create_obj(
            "api2.demo".to_string(),
            "api2".to_string(),
            "demo".to_string(),
            ProcessKind::Cargo,
            "v1".to_string(),
            spec_doc("nginx"),
        )
        .unwrap();
    store
        .create_obj(
            "web.other".to_string(),
            "web".to_string(),
            "other".to_string(),
            ProcessKind::Cargo,
            "v1".to_string(),
            spec_doc("nginx"),
        )
        .unwrap();
    assert_eq!(store.count_in_namespace(&"demo".to_string()), 2);
    assert_eq!(
        store.count_in_namespace_like(&"demo".to_string(), &"api%".to_string()),
        2
    );
    assert_eq!(
        store.count_in_namespace_like(&"demo".to_string(), &"api".to_string()),
        1
    );
    assert_eq!(
        store.count_in_namespace_like(&"other".to_string(), &"api%".to_string()),
        0
    );
}

/// Virtual machines go through the same lifecycle store.
#[test]
fn list_vm() {
    let mut store = ObjectStore::new();
    store
        .create_obj(
            "vm1.global".to_string(),
            "vm1".to_string(),
            "global".to_string(),
            ProcessKind::Vm,
            "v1".to_string(),
            Json::Obj(vec![("disk".to_string(), Json::Str("base.img".to_string()))]),
        )
        .unwrap();
    assert_eq!(store.objects.len(), 1);
    assert_eq!(store.objects[0].kind, ProcessKind::Vm);
    assert_eq!(store.history_len(&"vm1.global".to_string()).unwrap(), 1);
}
