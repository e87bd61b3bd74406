use csgo_inventory_editor::items_game::GameTranslation;
use csgo_inventory_editor::language_file::{decode_utf16_le, parse_key_value_line, LanguageFileParser};

fn utf16le(s: &str) -> Vec<u8> {
    s.encode_utf16().flat_map(|u| u.to_le_bytes()).collect()
}

fn get(t: &GameTranslation, k: &str) -> Option<String> {
    t.get(&k.to_string()).cloned()
}

#[test]
fn localization_decode() {
    let bytes = utf16le("\"Tokens\"\n{\n\"Foo\" \"Bar\"\n}\n");
    let t = LanguageFileParser::parse_from_bytes(&bytes).ok().unwrap();
    assert_eq!(get(&t, "Foo"), Some("Bar".to_string()));
    assert_eq!(t.map.len(), 1);
}

#[test]
fn content_outside_tokens_is_ignored() {
    let text = "\"lang\"\n{\n\"Language\" \"english\"\n\"Tokens\"\n{\n\"A\" \"1\"\n}\n\"B\" \"2\"\n}\n";
    let t = LanguageFileParser::parse_from_str(text).ok().unwrap();
    assert_eq!(get(&t, "A"), Some("1".to_string()));
    assert_eq!(get(&t, "Language"), None);
    assert_eq!(get(&t, "B"), None);
}

#[test]
fn comments_blank_lines_crlf_and_escapes() {
    let text = "\"Tokens\"\r\n{\r\n// \"C\" \"no\"\r\n\r\n  \"K\"\t\t\"a\\\"b\\nc\" // trailing\r\n\"bad line\r\n\"K2\" \"first\"\r\n\"K2\" \"second\"\r\n}\r\n";
    let t = LanguageFileParser::parse_from_str(text).ok().unwrap();
    assert_eq!(get(&t, "C"), None);
    assert_eq!(get(&t, "K"), Some("a\"b\nc".to_string()));
    assert_eq!(get(&t, "K2"), Some("second".to_string()));
}

#[test]
fn nested_braces_stay_in_tokens() {
    let text = "\"Tokens\"\n{\n{\n\"In\" \"1\"\n}\n\"Still\" \"2\"\n}\n\"After\" \"3\"\n";
    let t = LanguageFileParser::parse_from_str(text).ok().unwrap();
    assert_eq!(get(&t, "In"), Some("1".to_string()));
    assert_eq!(get(&t, "Still"), Some("2".to_string()));
    assert_eq!(get(&t, "After"), None);
}

#[test]
fn key_value_line_shapes() {
    let line = |s: &str| parse_key_value_line(&s.chars().collect());
    assert_eq!(line("\"a\" \"b\""), Some(("a".to_string(), "b".to_string())));
    assert_eq!(line("\"a\"\u{3000}\"b\""), Some(("a".to_string(), "b".to_string())));
    assert_eq!(line("\"k\" \"v"), None);
    assert_eq!(line("\"k \"v\""), None);
    assert_eq!(line("\"k\" \"v\\\""), None);
    assert_eq!(line("\"\" \"b\""), None);
    assert_eq!(line("a \"b\""), None);
    assert_eq!(line("\"a\" b"), None);
}

#[test]
fn invalid_utf16_is_an_error() {
    let bytes = vec![0x00, 0xD8, 0x41, 0x00];
    assert!(decode_utf16_le(&bytes).is_none());
    assert!(LanguageFileParser::parse_from_bytes(&bytes).is_err());
}

#[test]
fn utf16_decodes_pairs_and_drops_odd_byte() {
    let mut bytes = utf16le("h\u{1F600}é");
    bytes.push(0x41);
    assert_eq!(decode_utf16_le(&bytes), Some("h\u{1F600}é".to_string()));
}
