use csgo_inventory_editor::vdf::{VdfParseErrorKind, VdfParser, VdfValue};

fn text_of(v: &VdfValue) -> Option<String> {
    match v {
        VdfValue::String(s) => Some(s.clone()),
        VdfValue::Object(_) => None,
    }
}

fn block_of(v: &VdfValue) -> &Vec<(String, VdfValue)> {
    match v {
        VdfValue::Object(o) => o,
        VdfValue::String(_) => panic!("expected a block"),
    }
}

#[test]
fn merge_rule_joins_duplicate_blocks() {
    let root = VdfParser::parse("\"a\" { \"x\" \"1\" } \"a\" { \"y\" \"2\" }").ok().unwrap();
    assert_eq!(root.len(), 1);
    assert_eq!(root[0].0, "a");
    let a = block_of(&root[0].1);
    assert_eq!(a.len(), 2);
    assert_eq!(a[0].0, "x");
    assert_eq!(text_of(&a[0].1), Some("1".to_string()));
    assert_eq!(a[1].0, "y");
    assert_eq!(text_of(&a[1].1), Some("2".to_string()));
}

#[test]
fn merge_rule_overwrites_inner_keys_and_strings() {
    let root = VdfParser::parse("a { x \"1\" y \"2\" } a { y \"3\" } s \"old\" s \"new\"").ok().unwrap();
    let a = block_of(&root[0].1);
    assert_eq!(text_of(&a[0].1), Some("1".to_string()));
    assert_eq!(text_of(&a[1].1), Some("3".to_string()));
    assert_eq!(text_of(&root[1].1), Some("new".to_string()));
}

#[test]
fn escape_fidelity() {
    let root = VdfParser::parse("\"k\" \"line1\\nline2\\t\\\"q\\\"\"").ok().unwrap();
    assert_eq!(root.len(), 1);
    let value = text_of(&root[0].1).unwrap();
    assert_eq!(value, "line1\nline2\t\"q\"");
    let text = VdfParser::to_string(&VdfValue::Object(root));
    let again = VdfParser::parse(&text).ok().unwrap();
    assert_eq!(again.len(), 1);
    assert_eq!(again[0].0, "k");
    assert_eq!(text_of(&again[0].1).unwrap(), value);
}

#[test]
fn unterminated_string_fails() {
    let err = VdfParser::parse("\"k\" \"unterminated").err().unwrap();
    assert_eq!(err.kind, VdfParseErrorKind::UnterminatedString);
    assert_eq!(err.position, 17);
    assert_eq!(err.message, "Unterminated string");
}

#[test]
fn missing_value_quote_fails() {
    let err = VdfParser::parse("\"k\" value").err().unwrap();
    assert_eq!(err.kind, VdfParseErrorKind::ExpectedQuote);
    assert_eq!(err.position, 4);
}

#[test]
fn unclosed_block_fails() {
    let err = VdfParser::parse("\"k\" { \"a\" \"b\"").err().unwrap();
    assert_eq!(err.kind, VdfParseErrorKind::ExpectedKey);
    assert_eq!(err.position, 13);
}

#[test]
fn root_block_is_unwrapped() {
    let root = VdfParser::parse("  {\n\"a\" \"1\"\n}\n").ok().unwrap();
    assert_eq!(root.len(), 1);
    assert_eq!(root[0].0, "a");
    assert_eq!(text_of(&root[0].1), Some("1".to_string()));
}

#[test]
fn empty_text_is_empty_node() {
    let root = VdfParser::parse(" \n\t").ok().unwrap();
    assert_eq!(root.len(), 0);
}

#[test]
fn unquoted_keys_end_at_braces() {
    let root = VdfParser::parse("outer{inner \"v\"}").ok().unwrap();
    assert_eq!(root[0].0, "outer");
    let inner = block_of(&root[0].1);
    assert_eq!(inner[0].0, "inner");
}

#[test]
fn serializer_writes_blocks_with_tabs() {
    let root = VdfParser::parse("\"a\" { \"b\" \"c\" \"d\" { } }").ok().unwrap();
    let text = VdfParser::to_string(&VdfValue::Object(root));
    assert_eq!(text, "\"a\"\n{\n\t\"b\" \"c\"\n\t\"d\"\n\t{\n\t}\n}\n");
}

#[test]
fn escape_string_escapes_each_special_character() {
    let s = "a\\b\"c\nd\re\tf".to_string();
    assert_eq!(VdfParser::escape_string(&s), "a\\\\b\\\"c\\nd\\re\\tf");
}

#[test]
fn string_value_renders_quoted() {
    let v = VdfValue::String("x\"y".to_string());
    assert_eq!(VdfParser::to_string(&v), "\"x\\\"y\"");
}

#[test]
fn non_ascii_text_survives() {
    let root = VdfParser::parse("\"名前\" \"ünï\"").ok().unwrap();
    assert_eq!(root[0].0, "名前");
    assert_eq!(text_of(&root[0].1), Some("ünï".to_string()));
}
