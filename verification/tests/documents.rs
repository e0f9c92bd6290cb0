use worklog::doc::DocValue;
use worklog::doc::sanitize_json;
use worklog::doc::to_json;

fn obj(fields: Vec<(&str, DocValue)>) -> DocValue {
    DocValue::Obj(
        fields
            .into_iter()
            .map(|(k, v)| (k.to_string(), v))
            .collect(),
    )
}

fn s(text: &str) -> DocValue {
    DocValue::Str(text.to_string())
}

#[test]
fn redaction_walk_rewrites_string_leaves_only() {
    let doc = obj(vec![
        ("note", s("api_key: sk-abcdef0123456789")),
        ("count", DocValue::Num("42".to_string())),
        ("ok", DocValue::Bool(true)),
        ("nothing", DocValue::Null),
        (
            "hosts",
            DocValue::Arr(vec![s("8.8.8.8"), s("10.0.0.5"), DocValue::Bool(false)]),
        ),
    ]);
    let clean = sanitize_json(&doc);
    match clean {
        DocValue::Obj(fields) => {
            assert_eq!(fields.len(), 5);
            assert_eq!(fields[0].0, "note");
            assert!(matches!(&fields[0].1, DocValue::Str(t) if t == "api_key: [REDACTED_KEY]"));
            assert_eq!(fields[1].0, "count");
            assert!(matches!(&fields[1].1, DocValue::Num(t) if t == "42"));
            assert_eq!(fields[2].0, "ok");
            assert!(matches!(fields[2].1, DocValue::Bool(true)));
            assert_eq!(fields[3].0, "nothing");
            assert!(matches!(fields[3].1, DocValue::Null));
            assert_eq!(fields[4].0, "hosts");
            match &fields[4].1 {
                DocValue::Arr(items) => {
                    assert_eq!(items.len(), 3);
                    assert!(matches!(&items[0], DocValue::Str(t) if t == "[IP_REDACTED]"));
                    assert!(matches!(&items[1], DocValue::Str(t) if t == "10.0.0.5"));
                    assert!(matches!(items[2], DocValue::Bool(false)));
                },
                other => panic!("hosts is no array: {:?}", to_json(other)),
            }
        },
        other => panic!("not an object: {:?}", to_json(&other)),
    }
}

#[test]
fn json_rendering_is_exact() {
    let doc = obj(vec![
        ("a", DocValue::Num("1".to_string())),
        ("b", s("x")),
        ("c", DocValue::Arr(vec![DocValue::Null, DocValue::Bool(true)])),
    ]);
    assert_eq!(to_json(&doc), "{\"a\":1,\"b\":\"x\",\"c\":[null,true]}");
}

#[test]
fn json_rendering_escapes_strings() {
    let doc = s("line\nquote\"back\\slash\ttab");
    assert_eq!(to_json(&doc), "\"line\\nquote\\\"back\\\\slash\\ttab\"");
    let ctl = s("\u{1}");
    assert_eq!(to_json(&ctl), "\"\\u0001\"");
}

#[test]
fn empty_containers_render_empty() {
    assert_eq!(to_json(&DocValue::Arr(vec![])), "[]");
    assert_eq!(to_json(&DocValue::Obj(vec![])), "{}");
}
