use rj::{evaluate, evaluate_all, query_json, tokenize, Command, GetArrayElements, GetKey, Value};

fn num(n: &str) -> Value {
    Value::Number(n.to_string())
}

fn text(s: &str) -> Value {
    Value::String(s.to_string())
}

fn object(fields: Vec<(&str, Value)>) -> Value {
    Value::Object(fields.into_iter().map(|(k, v)| (k.to_string(), v)).collect())
}

#[test]
fn test_query_json() {
    let result = query_json(object(vec![]), ".");
    assert_eq!(result, vec![object(vec![])]);
}

#[test]
fn test_get_key() {
    let result = query_json(object(vec![("a", num("1"))]), "a");
    assert_eq!(result, vec![num("1")]);
}

#[test]
fn test_query_keys() {
    let result = query_json(object(vec![("a", num("1")), ("c", num("3"))]), "listkeys");
    assert_eq!(result, vec![text("a"), text("c")]);
}

#[test]
fn empty_pipeline_is_identity() {
    let data = Value::Array(vec![num("1"), Value::Null, Value::Bool(true)]);
    let r = evaluate(&Vec::new(), Value::Array(vec![num("1"), Value::Null, Value::Bool(true)]));
    assert_eq!(r.values, vec![data]);
    assert_eq!(r.mismatches, 0);
    assert_eq!(query_json(text("x"), ""), vec![text("x")]);
}

#[test]
fn nested_keys() {
    let data = object(vec![("a", object(vec![("b", num("5"))]))]);
    assert_eq!(query_json(data, "a.b"), vec![num("5")]);
}

#[test]
fn bracket_alone_selects_elements() {
    let data = Value::Array(vec![num("10"), num("20"), num("30")]);
    assert_eq!(query_json(data, "[0,1]"), vec![num("10"), num("20")]);
}

#[test]
fn fan_out_keeps_branch_order() {
    let pipeline = vec![
        Command::GetKey(GetKey { key: "a".to_string() }),
        Command::GetArrayElements(GetArrayElements { indices: "".to_string() }),
    ];
    let live = vec![
        object(vec![("a", Value::Array(vec![num("1"), num("2")]))]),
        object(vec![("a", Value::Array(vec![num("3")]))]),
    ];
    let r = evaluate_all(&pipeline, live);
    assert_eq!(r.values, vec![num("1"), num("2"), num("3")]);
    assert_eq!(r.mismatches, 0);
}

#[test]
fn fan_out_through_query() {
    let data = Value::Array(vec![
        object(vec![("a", num("1"))]),
        num("7"),
        object(vec![("b", num("2"))]),
    ]);
    let pipeline = tokenize("[].a");
    let r = evaluate(&pipeline, data);
    assert_eq!(r.values, vec![num("1"), Value::Null]);
    assert_eq!(r.mismatches, 1);
}

#[test]
fn mismatches_are_counted_per_value() {
    let data = Value::Array(vec![num("1"), text("x"), Value::Null]);
    let r = evaluate(&tokenize("[].k"), data);
    assert_eq!(r.values, Vec::<Value>::new());
    assert_eq!(r.mismatches, 3);
}

#[test]
fn keys_of_nested_object_in_order() {
    let data = object(vec![("o", object(vec![("x", Value::Null), ("y", Value::Null)]))]);
    assert_eq!(query_json(data, "o | listkeys"), vec![text("x"), text("y")]);
}

#[test]
fn dot_query_on_non_object_is_identity() {
    assert_eq!(query_json(num("3"), "."), vec![num("3")]);
}
