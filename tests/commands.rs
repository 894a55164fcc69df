use rj::{Command, GetArrayElements, GetKey, ListKeys, Value};

fn num(n: &str) -> Value {
    Value::Number(n.to_string())
}

fn text(s: &str) -> Value {
    Value::String(s.to_string())
}

fn object(fields: Vec<(&str, Value)>) -> Value {
    Value::Object(fields.into_iter().map(|(k, v)| (k.to_string(), v)).collect())
}

fn one_two_three() -> Value {
    Value::Array(vec![num("1"), num("2"), num("3")])
}

fn elements(indices: &str, input: Value) -> Vec<Value> {
    GetArrayElements { indices: indices.to_string() }.apply(input)
}

fn key(k: &str, input: Value) -> Vec<Value> {
    GetKey { key: k.to_string() }.apply(input)
}

#[test]
fn test_query_key() {
    assert_eq!(key("key", object(vec![])), vec![Value::Null]);
    assert_eq!(key("key", object(vec![("key", num("1"))])), vec![num("1")]);
    assert_eq!(key("_key", object(vec![("key", num("1"))])), vec![Value::Null]);
}

#[test]
fn test_query_array_elements() {
    assert_eq!(elements("0", Value::Array(vec![])), vec![Value::Null]);
    assert_eq!(elements("0", one_two_three()), vec![num("1")]);
    assert_eq!(elements("0,2", one_two_three()), vec![num("1"), num("3")]);
    assert_eq!(elements("", one_two_three()), vec![num("1"), num("2"), num("3")]);
    assert_eq!(elements(":", one_two_three()), vec![num("1"), num("2"), num("3")]);
    assert_eq!(elements("0,4", one_two_three()), vec![num("1"), Value::Null]);
}

#[test]
fn key_on_non_object_is_dropped() {
    assert_eq!(key("k", Value::Null), Vec::<Value>::new());
    assert_eq!(key("k", one_two_three()), Vec::<Value>::new());
    let c = Command::GetKey(GetKey { key: "k".to_string() });
    assert!(c.rejects(&Value::Null));
    assert!(c.rejects(&one_two_three()));
    assert!(!c.rejects(&object(vec![])));
}

#[test]
fn key_missing_and_present() {
    assert_eq!(key("k", object(vec![])), vec![Value::Null]);
    assert_eq!(key("k", object(vec![("k", num("1"))])), vec![num("1")]);
    assert_eq!(key("b", object(vec![("a", num("1")), ("b", text("two"))])), vec![text("two")]);
}

#[test]
fn dot_key_passes_object_through() {
    let data = object(vec![("a", num("1"))]);
    assert_eq!(key(".", object(vec![("a", num("1"))])), vec![data]);
}

#[test]
fn elements_keep_order_and_duplicates() {
    assert_eq!(elements("2,0,2", one_two_three()), vec![num("3"), num("1"), num("3")]);
}

#[test]
fn elements_unparseable_pieces_become_null() {
    assert_eq!(elements("1,x", one_two_three()), vec![num("2"), Value::Null]);
    assert_eq!(elements("0,", one_two_three()), vec![num("1"), Value::Null]);
    assert_eq!(elements(",", one_two_three()), vec![Value::Null, Value::Null]);
    assert_eq!(elements("-1", one_two_three()), vec![Value::Null]);
    assert_eq!(elements("+", one_two_three()), vec![Value::Null]);
    assert_eq!(elements(" 1", one_two_three()), vec![Value::Null]);
}

#[test]
fn elements_accept_plus_sign_and_leading_zeros() {
    assert_eq!(elements("+1", one_two_three()), vec![num("2")]);
    assert_eq!(elements("002", one_two_three()), vec![num("3")]);
}

#[test]
fn elements_huge_index_is_null() {
    assert_eq!(elements("99999999999999999999999999", one_two_three()), vec![Value::Null]);
    assert_eq!(elements("3", one_two_three()), vec![Value::Null]);
}

#[test]
fn elements_on_non_array_degrade_to_null() {
    assert_eq!(elements("0", Value::Null), vec![Value::Null]);
    assert_eq!(elements("", object(vec![("a", num("1"))])), vec![Value::Null]);
    let c = Command::GetArrayElements(GetArrayElements { indices: "0".to_string() });
    assert!(!c.rejects(&Value::Null));
}

#[test]
fn elements_copy_nested_values() {
    let inner = object(vec![("x", Value::Array(vec![Value::Bool(false)]))]);
    let data = Value::Array(vec![inner]);
    let expected = object(vec![("x", Value::Array(vec![Value::Bool(false)]))]);
    assert_eq!(elements("0,0", data), vec![
        object(vec![("x", Value::Array(vec![Value::Bool(false)]))]),
        expected,
    ]);
}

#[test]
fn list_keys_names_fields() {
    let data = object(vec![("a", num("1")), ("c", num("3"))]);
    assert_eq!(ListKeys {}.apply(data), vec![text("a"), text("c")]);
    assert_eq!(ListKeys {}.apply(num("1")), Vec::<Value>::new());
    assert!(Command::ListKeys(ListKeys {}).rejects(&Value::Null));
}

#[test]
fn command_dispatches() {
    let c = Command::GetKey(GetKey { key: "a".to_string() });
    assert_eq!(c.apply(object(vec![("a", Value::Bool(true))])), vec![Value::Bool(true)]);
    let c = Command::GetArrayElements(GetArrayElements { indices: "1".to_string() });
    assert_eq!(c.apply(one_two_three()), vec![num("2")]);
    let c = Command::ListKeys(ListKeys {});
    assert_eq!(c.apply(object(vec![("z", Value::Null)])), vec![text("z")]);
}
