use rj::{tokenize, Command, GetArrayElements, GetKey, ListKeys};

fn key(k: &str) -> Command {
    Command::GetKey(GetKey { key: k.to_string() })
}

fn elements(i: &str) -> Command {
    Command::GetArrayElements(GetArrayElements { indices: i.to_string() })
}

#[test]
fn dotted_keys() {
    assert_eq!(tokenize("a.b"), vec![key("a"), key("b")]);
}

#[test]
fn bracket_alone() {
    assert_eq!(tokenize("[0,1]"), vec![elements("0,1")]);
}

#[test]
fn dot_alone_is_empty() {
    assert_eq!(tokenize("."), Vec::<Command>::new());
    assert_eq!(tokenize(""), Vec::<Command>::new());
}

#[test]
fn listkeys_word() {
    assert_eq!(tokenize("a.listkeys"), vec![key("a"), Command::ListKeys(ListKeys {})]);
    assert_eq!(tokenize("listkeysx"), vec![key("listkeysx")]);
}

#[test]
fn mixed_query() {
    assert_eq!(
        tokenize(".items[].name_1-x[2]"),
        vec![key("items"), elements(""), key("name_1-x"), elements("2")]
    );
}

#[test]
fn other_text_is_skipped() {
    assert_eq!(tokenize("a | b"), vec![key("a"), key("b")]);
    assert_eq!(tokenize("[a]"), vec![key("a")]);
    assert_eq!(tokenize("[1"), vec![key("1")]);
    assert_eq!(tokenize("é.b"), vec![key("b")]);
    assert_eq!(tokenize("[:]"), Vec::<Command>::new());
}
