use nanocl_core::json::Json;
use nanocl_core::json_text::to_text;

fn obj(fields: Vec<(&str, Json)>) -> Json {
    Json::Obj(fields.into_iter().map(|(k, v)| (k.to_string(), v)).collect())
}

fn s(v: &str) -> Json {
    Json::Str(v.to_string())
}

#[test]
fn prints_scalars() {
    assert_eq!(to_text(&Json::Null), "null");
    assert_eq!(to_text(&Json::Bool(true)), "true");
    assert_eq!(to_text(&Json::Bool(false)), "false");
    assert_eq!(to_text(&Json::Num(0)), "0");
    assert_eq!(to_text(&Json::Num(-42)), "-42");
    assert_eq!(to_text(&Json::Num(1048576)), "1048576");
}

#[test]
fn prints_structures() {
    let doc = obj(vec![
        ("name", s("api")),
        ("replicas", Json::Num(2)),
        ("tags", Json::Arr(vec![s("a"), s("b")])),
    ]);
    assert_eq!(
        to_text(&doc),
        "{\"name\":\"api\",\"replicas\":2,\"tags\":[\"a\",\"b\"]}"
    );
}

#[test]
fn escapes_strings() {
    assert_eq!(to_text(&s("a\"b")), "\"a\\\"b\"");
    assert_eq!(to_text(&s("a\\b")), "\"a\\\\b\"");
    assert_eq!(to_text(&s("a\nb\tc")), "\"a\\nb\\tc\"");
    assert_eq!(to_text(&s("a\u{1}b")), "\"a\\u0001b\"");
}

#[test]
fn printed_text_is_json() {
    let doc = obj(vec![
        ("note", s("line one\nline two \"quoted\"")),
        ("n", Json::Num(-7)),
        ("inner", obj(vec![("x", Json::Null)])),
    ]);
    let text = to_text(&doc);
    // a printed document spans one line and parses back
    assert!(!text.contains('\n'));
    let parsed: serde_json::Value = serde_json::from_str(&text).expect("valid JSON");
    assert_eq!(parsed["note"], serde_json::Value::String("line one\nline two \"quoted\"".into()));
    assert_eq!(parsed["n"], serde_json::Value::from(-7));
}

#[test]
fn containment_on_labels() {
    let data = obj(vec![(
        "Config",
        obj(vec![(
            "Labels",
            obj(vec![
                ("io.nanocl.n", s("system")),
                ("io.nanocl.not-init-c", s("true")),
            ]),
        )]),
    )]);
    let pat = obj(vec![(
        "Config",
        obj(vec![("Labels", obj(vec![("io.nanocl.not-init-c", s("true"))]))]),
    )]);
    assert!(nanocl_core::json::json_contains(&data, &pat));
    let wrong = obj(vec![(
        "Config",
        obj(vec![("Labels", obj(vec![("io.nanocl.not-init-c", s("false"))]))]),
    )]);
    assert!(!nanocl_core::json::json_contains(&data, &wrong));
}

#[test]
fn containment_on_arrays_and_scalars() {
    let big = Json::Arr(vec![Json::Num(1), Json::Num(2), Json::Num(3)]);
    let small = Json::Arr(vec![Json::Num(3), Json::Num(1)]);
    assert!(nanocl_core::json::json_contains(&big, &small));
    let missing = Json::Arr(vec![Json::Num(4)]);
    assert!(!nanocl_core::json::json_contains(&big, &missing));
    assert!(nanocl_core::json::json_contains(&Json::Num(5), &Json::Num(5)));
    assert!(!nanocl_core::json::json_contains(&Json::Num(5), &Json::Bool(true)));
}

#[test]
fn merge_is_field_level() {
    let old = obj(vec![
        ("image", s("nginx")),
        ("replicas", Json::Num(2)),
        ("env", Json::Arr(vec![s("A=1")])),
    ]);
    let patch = obj(vec![("image", s("nginx:alpine")), ("ttl", Json::Num(9))]);
    let merged = nanocl_core::json::merge(&old, &patch);
    assert_eq!(
        to_text(&merged),
        "{\"image\":\"nginx:alpine\",\"replicas\":2,\"env\":[\"A=1\"],\"ttl\":9}"
    );
    // anything but two objects is replaced wholesale
    let replaced = nanocl_core::json::merge(&old, &Json::Num(1));
    assert_eq!(to_text(&replaced), "1");
}

#[test]
fn field_lookup_first_binding_wins() {
    let doc = obj(vec![("a", Json::Num(1)), ("a", Json::Num(2))]);
    let got = doc.get_field(&"a".to_string()).expect("bound");
    assert_eq!(to_text(got), "1");
    assert!(doc.get_field(&"b".to_string()).is_none());
}
