use csgo_inventory_editor::display::get_attribute_value_display_name;
use csgo_inventory_editor::editor::{CsgoInventoryEditor, Rarity};
use csgo_inventory_editor::item_attribute::{
    available_attributes, get_attribute_display_name, get_attribute_fluent_key, ItemAttribute,
};
use csgo_inventory_editor::items_game::{GameTranslation, ItemsGame};
use csgo_inventory_editor::items_game_loader::{strip_hash_exec, ItemsGameLoadError, ItemsGameLoader};
use csgo_inventory_editor::models::{Inventory, Item};

const DEFS: &str = r##"
"items_game"
{
    "prefabs"
    {
        "weapon_base" { "item_name" "#Name_Base" }
        "plain" { "name" "p" }
    }
    "items"
    {
        "default" { "name" "default_item" }
        "7" { "name" "weapon_ak47" "prefab" "weapon_base" }
        "8" { "name" "weapon_aug" "item_name" "#SFUI_WPNHUD_Aug" "prefab" "weapon_base" }
        "9" { "name" "weapon_x" "prefab" "plain" }
        "10" { "prefab" "missing" }
        "junk" { "name" "ignored" }
    }
    "paint_kits"
    {
        "1149" { "name" "cu_ak_art" "description_string" "#PaintKit_cu_ak_art" "description_tag" "#PaintKit_cu_ak_art_Tag" }
        "12" { "name" "plain_paint" }
    }
    "sticker_kits"
    {
        "5" { "name" "st" "item_name" "#StickerKit_st" }
    }
    "music_definitions"
    {
        "3" { "loc_name" "#Music_Three" }
    }
    "rarities"
    {
        "common" { "value" "1" "loc_key" "Rarity_Common" "loc_key_weapon" "Rarity_Common_Weapon" }
        "rare" { "value" "3" "loc_key" "Rarity_Rare" }
        "odd" { "value" "nope" "loc_key" "Rarity_Odd" }
    }
    "qualities"
    {
        "genuine" { "value" "1" }
    }
    "graffiti_tints"
    {
        "shark_white" { "id" "13" "hex_color" "#ffffff" }
    }
    "paint_kits_rarity"
    {
        "cu_ak_art" "legendary"
    }
}
"##;

fn translations(pairs: &[(&str, &str)]) -> GameTranslation {
    let mut t = GameTranslation::new();
    for (k, v) in pairs {
        t.insert(k.to_string(), v.to_string());
    }
    t
}

fn defs() -> ItemsGame {
    ItemsGameLoader::parse_from_str(DEFS).ok().unwrap()
}

fn item_with(def_index: u32, attrs: &[(u32, &str)]) -> Item {
    let mut item = Item::default();
    item.def_index = def_index;
    item.attributes = attrs.iter().map(|(k, v)| (*k, v.to_string())).collect();
    item
}

fn find<'a, T>(table: &'a [(u32, T)], id: u32) -> Option<&'a T> {
    table.iter().find(|(k, _)| *k == id).map(|(_, v)| v)
}

#[test]
fn prefab_fallback_strips_hash() {
    let g = defs();
    let ak = find(&g.items, 7).unwrap();
    assert_eq!(ak.name, "weapon_ak47");
    assert_eq!(ak.item_name, "Name_Base");
    assert_eq!(ak.prefab, Some("weapon_base".to_string()));
}

#[test]
fn own_item_name_wins_over_prefab() {
    let g = defs();
    assert_eq!(find(&g.items, 8).unwrap().item_name, "SFUI_WPNHUD_Aug");
}

#[test]
fn prefab_without_name_falls_back_to_own_name() {
    let g = defs();
    assert_eq!(find(&g.items, 9).unwrap().item_name, "weapon_x");
    assert_eq!(find(&g.items, 10).unwrap().item_name, "10");
}

#[test]
fn default_key_is_index_zero_and_junk_is_skipped() {
    let g = defs();
    assert_eq!(find(&g.items, 0).unwrap().name, "default_item");
    assert_eq!(g.items.len(), 5);
}

#[test]
fn loader_reads_every_table() {
    let g = defs();
    let pk = find(&g.paint_kits, 1149).unwrap();
    assert_eq!(pk.description_string, "PaintKit_cu_ak_art");
    assert_eq!(pk.description_tag, "PaintKit_cu_ak_art_Tag");
    let plain = find(&g.paint_kits, 12).unwrap();
    assert_eq!(plain.description_string, "plain_paint");
    let sk = find(&g.sticker_kits, 5).unwrap();
    assert_eq!(sk.index, 5);
    assert_eq!(sk.item_name, "StickerKit_st");
    let md = find(&g.music_defs, 3).unwrap();
    assert_eq!(md.name, "3");
    assert_eq!(md.loc_name, "Music_Three");
    assert_eq!(md.loc_description, "");
    assert_eq!(g.rarities.len(), 3);
    assert_eq!(g.rarities[0].0, "common");
    assert_eq!(g.rarities[0].1.value, 1);
    assert_eq!(g.rarities[2].1.value, 0);
    assert_eq!(g.qualities[0].1.name, "genuine");
    assert_eq!(g.qualities[0].1.value, 1);
    assert_eq!(g.graffiti_tints[0].1.id, 13);
    assert_eq!(g.graffiti_tints[0].1.hex_color, "#ffffff");
    assert_eq!(g.paint_kits_rarity, vec![("cu_ak_art".to_string(), "legendary".to_string())]);
}

#[test]
fn missing_sections_give_empty_tables() {
    let g = ItemsGameLoader::parse_from_str("\"other\" { }").ok().unwrap();
    assert!(g.items.is_empty());
    assert!(g.rarities.is_empty());
    assert!(g.paint_kits_rarity.is_empty());
}

#[test]
fn definitions_syntax_error() {
    match ItemsGameLoader::parse_from_str("\"items_game\" { \"x\"") {
        Err(ItemsGameLoadError::Parse(e)) => assert_eq!(e.position, 18),
        _ => panic!("expected a parse error"),
    }
}

#[test]
fn attribute_priority_paint_over_music() {
    let g = defs();
    let t = translations(&[("Name_Base", "AK-47"), ("PaintKit_cu_ak_art_Tag", "The Empress"), ("Music_Three", "Tune")]);
    let item = item_with(7, &[(166, "3"), (6, "1149.000000")]);
    assert_eq!(g.get_item_full_name(&item, &t), "AK-47 | The Empress");
}

#[test]
fn music_then_sticker_then_bare_name() {
    let g = defs();
    let t = translations(&[("Name_Base", "AK-47"), ("Music_Three", "Tune"), ("StickerKit_st", "Sticker")]);
    assert_eq!(g.get_item_full_name(&item_with(7, &[(6, "99999"), (166, "3")]), &t), "AK-47 | Tune");
    assert_eq!(g.get_item_full_name(&item_with(7, &[(166, "x"), (113, "5")]), &t), "AK-47 | Sticker");
    assert_eq!(g.get_item_full_name(&item_with(7, &[(113, "77")]), &t), "AK-47");
    assert_eq!(g.get_item_full_name(&item_with(4242, &[]), &t), "??? 4242");
}

#[test]
fn untranslated_names_fall_back_to_keys() {
    let g = defs();
    let t = GameTranslation::new();
    assert_eq!(g.get_item_display_name(7, &t), "Name_Base");
    assert_eq!(g.get_paint_kit_display_name(1149, &t), Some("PaintKit_cu_ak_art".to_string()));
    assert_eq!(g.get_sticker_kit_display_name(6, &t), None);
    assert_eq!(g.get_music_def_display_name(3, &t), Some("Music_Three".to_string()));
    assert_eq!(g.qualities[0].1.get_display_name(&t), "genuine");
}

#[test]
fn later_translation_wins() {
    let t = translations(&[("k", "first"), ("k", "second")]);
    assert_eq!(t.get(&"k".to_string()), Some(&"second".to_string()));
    assert_eq!(t.get(&"K".to_string()), None);
}

#[test]
fn unknown_attribute_name() {
    let t = GameTranslation::new();
    assert_eq!(get_attribute_display_name(9999, &t), "Unknown (9999)");
}

#[test]
fn attribute_names_from_table_and_translation() {
    let t = translations(&[("attr-7", "Pattern")]);
    assert_eq!(get_attribute_display_name(6, &t), "SkinPaintIndex");
    assert_eq!(get_attribute_display_name(7, &t), "Pattern");
    assert_eq!(get_attribute_display_name(233, &t), "SprayColor");
    assert_eq!(get_attribute_fluent_key(113), "attr-113");
}

#[test]
fn attribute_ids_round_trip() {
    assert_eq!(ItemAttribute::from_id(128), Some(ItemAttribute::Sticker3Rotation));
    assert_eq!(ItemAttribute::Sticker3Rotation.id(), 128);
    assert_eq!(ItemAttribute::MusicID.name(), "MusicID");
    assert_eq!(ItemAttribute::from_id(5), None);
    let ids = available_attributes();
    assert_eq!(ids.len(), 26);
    assert_eq!(ids[25], 166);
}

#[test]
fn attribute_values_resolve_names() {
    let g = defs();
    let t = translations(&[("PaintKit_cu_ak_art_Tag", "The Empress")]);
    let v = |id: u32, s: &str| get_attribute_value_display_name(id, &s.to_string(), &g, &t);
    assert_eq!(v(6, "1149.000000"), "The Empress (1149)");
    assert_eq!(v(6, "nan"), "nan");
    assert_eq!(v(117, "5"), "StickerKit_st");
    assert_eq!(v(117, "6"), "6");
    assert_eq!(v(166, "3"), "Music_Three");
    assert_eq!(v(233, "13"), "shark_white");
    assert_eq!(v(233, "14"), "14");
    assert_eq!(v(80, "12"), "12");
}

#[test]
fn rarity_names() {
    let g = defs();
    let t = translations(&[("Rarity_Common_Weapon", "Consumer Grade"), ("Rarity_Common", "Common"), ("Rarity_Rare", "Mil-Spec")]);
    let editor = CsgoInventoryEditor::with_data(Inventory::default(), g, t, None);
    assert_eq!(editor.get_rarity_name(1), "Consumer Grade");
    assert_eq!(editor.get_rarity_name(3), "Mil-Spec");
    assert_eq!(editor.get_rarity_name(6), "Unknown (6)");
    let bare = CsgoInventoryEditor::with_data(Inventory::default(), defs(), GameTranslation::new(), None);
    assert_eq!(bare.get_rarity_name(3), "Rarity_Rare");
}

#[test]
fn rarity_grades() {
    assert_eq!(Rarity::from_u32(3), Rarity::MilSpec);
    assert_eq!(Rarity::from_u32(7), Rarity::Contraband);
    assert_eq!(Rarity::from_u32(8), Rarity::Default);
}

#[test]
fn editor_select_window() {
    let mut editor = CsgoInventoryEditor::with_data(Inventory::default(), ItemsGame::default(), GameTranslation::new(), None);
    editor.select_window_search = "old".to_string();
    editor.open_select_window("T".to_string(), "K".to_string(), "V".to_string(), vec![("a".to_string(), "b".to_string(), "c".to_string())]);
    assert!(editor.select_window_open);
    assert_eq!(editor.select_window_title, "T");
    assert_eq!(editor.select_window_search, "");
    assert_eq!(editor.select_window_items.len(), 1);
}

#[test]
fn strip_hash_only_leading() {
    assert_eq!(strip_hash_exec(&"#a#b".to_string()), "a#b");
    assert_eq!(strip_hash_exec(&"ab".to_string()), "ab");
    assert_eq!(strip_hash_exec(&"".to_string()), "");
}

#[test]
fn rarity_loc_keys_lose_their_hash() {
    let g = ItemsGameLoader::parse_from_str(
        "items_game { rarities { rare { value \"3\" loc_key \"#Rarity_Rare\" loc_key_weapon \"#Rarity_Rare_Weapon\" } } }",
    )
    .ok()
    .unwrap();
    assert_eq!(g.rarities[0].1.loc_key, "Rarity_Rare");
    assert_eq!(g.rarities[0].1.loc_key_weapon, Some("Rarity_Rare_Weapon".to_string()));
    let t = translations(&[("Rarity_Rare_Weapon", "Mil-Spec Grade")]);
    assert_eq!(g.get_rarity_name(3, &t), "Mil-Spec Grade");
}
