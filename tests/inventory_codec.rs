use csgo_inventory_editor::codec::{
    decode, encode, parse_inventory_text, serialize_inventory_text, InventoryDecodeError, InventoryError, ItemField,
};
use csgo_inventory_editor::codec::{InventoryParser, VdfInventoryParser};
use csgo_inventory_editor::loader::{InventoryLoadError, InventoryLoader, InventoryLoaderRef};
use csgo_inventory_editor::models::{DefaultEquip, Inventory, Item};
use csgo_inventory_editor::num::{decimal_exec, parse_truncated_exec, parse_unsigned_exec};
use csgo_inventory_editor::vdf::VdfParser;

const SAVE: &str = "\"items\"\n{\n\t\"7\"\n\t{\n\t\t\"inventory\"\t\t\"12345678901\"\n\t\t\"def_index\"\t\t\"7\"\n\t\t\"level\"\t\t\"1\"\n\t\t\"quality\"\t\t\"4\"\n\t\t\"flags\"\t\t\"0\"\n\t\t\"origin\"\t\t\"8\"\n\t\t\"in_use\"\t\t\"0\"\n\t\t\"rarity\"\t\t\"5\"\n\t\t\"custom_name\"\t\t\"My \\\"AK\\\"\"\n\t\t\"attributes\"\n\t\t{\n\t\t\t\"6\"\t\t\"1149.000000\"\n\t\t\t\"7\"\t\t\"0.5\"\n\t\t}\n\t}\n\t\"9\"\n\t{\n\t\t\"inventory\"\t\t\"2\"\n\t\t\"def_index\"\t\t\"1209\"\n\t\t\"level\"\t\t\"1\"\n\t\t\"quality\"\t\t\"0\"\n\t\t\"flags\"\t\t\"0\"\n\t\t\"origin\"\t\t\"0\"\n\t\t\"in_use\"\t\t\"1\"\n\t\t\"rarity\"\t\t\"1\"\n\t\t\"equipped_state\"\n\t\t{\n\t\t\t\"2\"\t\t\"5\"\n\t\t}\n\t}\n}\n\"default_equips\"\n{\n\t\"3\"\n\t{\n\t\t\"class_id\"\t\t\"3\"\n\t\t\"slot_id\"\t\t\"2\"\n\t}\n}\n";

fn same_item(a: &Item, b: &Item) -> bool {
    a.inventory == b.inventory
        && a.def_index == b.def_index
        && a.level == b.level
        && a.quality == b.quality
        && a.flags == b.flags
        && a.origin == b.origin
        && a.in_use == b.in_use
        && a.rarity == b.rarity
        && a.custom_name == b.custom_name
        && a.attributes == b.attributes
        && a.equipped_state == b.equipped_state
}

fn same_inventory(a: &Inventory, b: &Inventory) -> bool {
    a.items.len() == b.items.len()
        && a.items.iter().zip(b.items.iter()).all(|(x, y)| same_item(x, y))
        && a.default_equips == b.default_equips
}

#[test]
fn decode_reads_items_in_order() {
    let inv = parse_inventory_text(SAVE).ok().unwrap();
    assert_eq!(inv.items.len(), 2);
    let first = &inv.items[0];
    assert_eq!(first.inventory, 12345678901);
    assert_eq!(first.def_index, 7);
    assert_eq!(first.quality, 4);
    assert_eq!(first.origin, 8);
    assert_eq!(first.rarity, 5);
    assert_eq!(first.custom_name, Some("My \"AK\"".to_string()));
    assert_eq!(first.attributes, vec![(6, "1149.000000".to_string()), (7, "0.5".to_string())]);
    assert!(first.equipped_state.is_empty());
    let second = &inv.items[1];
    assert_eq!(second.def_index, 1209);
    assert_eq!(second.in_use, 1);
    assert_eq!(second.custom_name, None);
    assert_eq!(second.equipped_state, vec![(2, "5".to_string())]);
    assert_eq!(inv.default_equips, vec![(3, DefaultEquip { class_id: 3, slot_id: 2 })]);
}

#[test]
fn round_trip_renumbers_slots_and_keeps_items() {
    let inv = parse_inventory_text(SAVE).ok().unwrap();
    let text = serialize_inventory_text(&inv);
    assert!(text.contains("\"items\"\n{\n\t\"2\"\n\t{\n\t\t\"inventory\"\t\"12345678901\"\n"));
    assert!(text.contains("\t\"3\"\n\t{\n\t\t\"inventory\"\t\"2\"\n"));
    assert!(!text.contains("\"7\"\n\t{\n\t\t\"inventory\""));
    let again = parse_inventory_text(&text).ok().unwrap();
    assert!(same_inventory(&inv, &again));
    let tree_again = decode(&encode(&inv)).ok().unwrap();
    assert!(same_inventory(&inv, &tree_again));
}

#[test]
fn serialize_exact_text() {
    let mut item = Item::default();
    item.inventory = 10;
    item.def_index = 4;
    item.level = 1;
    let inv = Inventory { items: vec![item], default_equips: Vec::new() };
    let text = serialize_inventory_text(&inv);
    assert_eq!(
        text,
        "\"items\"\n{\n\t\"2\"\n\t{\n\t\t\"inventory\"\t\"10\"\n\t\t\"def_index\"\t\"4\"\n\t\t\"level\"\t\"1\"\n\t\t\"quality\"\t\"0\"\n\t\t\"flags\"\t\"0\"\n\t\t\"origin\"\t\"0\"\n\t\t\"in_use\"\t\"0\"\n\t\t\"rarity\"\t\"0\"\n\t}\n}\n"
    );
}

#[test]
fn empty_inventory_serializes_items_only() {
    let inv = Inventory::default();
    assert_eq!(serialize_inventory_text(&inv), "\"items\"\n{\n}\n");
}

#[test]
fn carriage_returns_in_values_stay_escaped() {
    let mut item = Item::default();
    item.custom_name = Some("a\r\nb c".to_string());
    let inv = Inventory { items: vec![item], default_equips: Vec::new() };
    let text = serialize_inventory_text(&inv);
    assert!(text.contains("\"custom_name\"\t\"a\\r\\nb c\""));
    let again = parse_inventory_text(&text).ok().unwrap();
    assert_eq!(again.items[0].custom_name, Some("a\r\nb c".to_string()));
}

#[test]
fn missing_items_section_is_an_error() {
    match parse_inventory_text("\"default_equips\" { }") {
        Err(InventoryError::Decode(e)) => assert_eq!(e, InventoryDecodeError::MissingItems),
        _ => panic!("expected a decode error"),
    }
}

#[test]
fn items_as_string_is_missing() {
    match parse_inventory_text("\"items\" \"none\"") {
        Err(InventoryError::Decode(e)) => assert_eq!(e, InventoryDecodeError::MissingItems),
        _ => panic!("expected a decode error"),
    }
}

#[test]
fn missing_field_is_an_error() {
    let text = "items { 2 { inventory \"1\" def_index \"2\" level \"1\" quality \"0\" flags \"0\" origin \"0\" in_use \"0\" } }";
    match parse_inventory_text(text) {
        Err(InventoryError::Decode(e)) => assert_eq!(e, InventoryDecodeError::MissingField(ItemField::Rarity)),
        _ => panic!("expected a decode error"),
    }
}

#[test]
fn non_numeric_field_is_an_error() {
    let text = "items { 2 { inventory \"1\" def_index \"x\" level \"1\" quality \"0\" flags \"0\" origin \"0\" in_use \"0\" rarity \"0\" } }";
    match parse_inventory_text(text) {
        Err(InventoryError::Decode(e)) => assert_eq!(e, InventoryDecodeError::InvalidField(ItemField::DefIndex)),
        _ => panic!("expected a decode error"),
    }
}

#[test]
fn out_of_range_field_is_an_error() {
    let text = "items { 2 { inventory \"1\" def_index \"4294967296\" level \"1\" quality \"0\" flags \"0\" origin \"0\" in_use \"0\" rarity \"0\" } }";
    match parse_inventory_text(text) {
        Err(InventoryError::Decode(e)) => assert_eq!(e, InventoryDecodeError::InvalidField(ItemField::DefIndex)),
        _ => panic!("expected a decode error"),
    }
}

#[test]
fn non_numeric_attribute_key_is_an_error() {
    let text = "items { 2 { inventory \"1\" def_index \"2\" level \"1\" quality \"0\" flags \"0\" origin \"0\" in_use \"0\" rarity \"0\" attributes { paint \"5\" } } }";
    match parse_inventory_text(text) {
        Err(InventoryError::Decode(e)) => assert_eq!(e, InventoryDecodeError::InvalidAttributeKey),
        _ => panic!("expected a decode error"),
    }
}

#[test]
fn non_numeric_equipped_state_key_is_an_error() {
    let text = "items { 2 { inventory \"1\" def_index \"2\" level \"1\" quality \"0\" flags \"0\" origin \"0\" in_use \"0\" rarity \"0\" equipped_state { ct \"5\" } } }";
    match parse_inventory_text(text) {
        Err(InventoryError::Decode(e)) => assert_eq!(e, InventoryDecodeError::InvalidEquippedStateKey),
        _ => panic!("expected a decode error"),
    }
}

#[test]
fn non_numeric_class_id_is_an_error() {
    let text = "items { } default_equips { ct { class_id \"3\" slot_id \"1\" } }";
    match parse_inventory_text(text) {
        Err(InventoryError::Decode(e)) => assert_eq!(e, InventoryDecodeError::InvalidClassId),
        _ => panic!("expected a decode error"),
    }
}

#[test]
fn syntax_error_is_reported_by_the_loader() {
    match InventoryLoader::parse_from_str("\"items\" { \"2\" \"open") {
        Err(InventoryLoadError::Parse(InventoryError::Syntax(e))) => assert_eq!(e.position, 19),
        _ => panic!("expected a syntax error"),
    }
}

#[test]
fn string_items_are_passed_over() {
    let inv = parse_inventory_text("items { note \"x\" }").ok().unwrap();
    assert_eq!(inv.items.len(), 0);
}

#[test]
fn duplicate_numeric_attribute_keys_keep_the_last() {
    let text = "items { 2 { inventory \"1\" def_index \"2\" level \"1\" quality \"0\" flags \"0\" origin \"0\" in_use \"0\" rarity \"0\" attributes { 6 \"1\" 06 \"2\" } } }";
    let inv = parse_inventory_text(text).ok().unwrap();
    assert_eq!(inv.items[0].attributes, vec![(6, "2".to_string())]);
}

#[test]
fn unsigned_numbers() {
    assert_eq!(parse_unsigned_exec("+42", u32::MAX as u64), Some(42));
    assert_eq!(parse_unsigned_exec("", u32::MAX as u64), None);
    assert_eq!(parse_unsigned_exec("+", u32::MAX as u64), None);
    assert_eq!(parse_unsigned_exec("-1", u32::MAX as u64), None);
    assert_eq!(parse_unsigned_exec("4294967295", u32::MAX as u64), Some(4294967295));
    assert_eq!(parse_unsigned_exec("4294967296", u32::MAX as u64), None);
    assert_eq!(parse_unsigned_exec("18446744073709551615", u64::MAX), Some(u64::MAX));
    assert_eq!(parse_unsigned_exec("18446744073709551616", u64::MAX), None);
    assert_eq!(parse_unsigned_exec(" 1", u32::MAX as u64), None);
}

#[test]
fn truncated_fractions() {
    assert_eq!(parse_truncated_exec("1149.000000", u32::MAX as u64), Some(1149));
    assert_eq!(parse_truncated_exec("7.9", u32::MAX as u64), Some(7));
    assert_eq!(parse_truncated_exec(".5", u32::MAX as u64), Some(0));
    assert_eq!(parse_truncated_exec("12.", u32::MAX as u64), Some(12));
    assert_eq!(parse_truncated_exec(".", u32::MAX as u64), None);
    assert_eq!(parse_truncated_exec("1.2.3", u32::MAX as u64), None);
    assert_eq!(parse_truncated_exec("abc", u32::MAX as u64), None);
}

#[test]
fn decimal_text() {
    assert_eq!(decimal_exec(0), "0");
    assert_eq!(decimal_exec(1209), "1209");
    assert_eq!(decimal_exec(u64::MAX as u128), "18446744073709551615");
}

#[test]
fn vdf_root_of_inventory_has_items_first() {
    let inv = parse_inventory_text(SAVE).ok().unwrap();
    let tree = encode(&inv);
    assert_eq!(tree.len(), 2);
    assert_eq!(tree[0].0, "items");
    assert_eq!(tree[1].0, "default_equips");
    let text = VdfParser::to_string(&csgo_inventory_editor::vdf::VdfValue::Object(tree));
    assert!(text.starts_with("\"items\"\n{\n\t\"2\"\n"));
}

#[test]
fn parser_trait_through_loader_ref() {
    let parser = VdfInventoryParser;
    let loader = InventoryLoaderRef::new(&parser);
    let text = r#""items" { "2" { "inventory" "100" "def_index" "7" "level" "1" "quality" "4" "flags" "0" "origin" "8" "in_use" "0" "rarity" "1" } }"#;
    let inv = loader.parse_from_str(text).ok().unwrap();
    assert_eq!(inv.items.len(), 1);
    assert_eq!(inv.items[0].inventory, 100);
    assert_eq!(inv.items[0].origin, 8);
    assert!(parser.parse("\"default_equips\" { }").is_err());
    assert_eq!(parser.serialize(&Inventory::default()), "\"items\"\n{\n}\n");
    assert_eq!(loader.serialize(&inv), serialize_inventory_text(&inv));
}
