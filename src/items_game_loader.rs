use vstd::prelude::*;
use vstd::string::StringExecFns;

use crate::codec::{block_field, text_field};
use crate::items_game::{
    id_table_view, name_table_view, put_by_id, put_by_name, put_name, string_pairs_view, GraffitiTintModel, IGGraffitiTint,
    IGItem, IGMusicDef, IGPaintKit, IGQuality, IGRarity, IGStickerKit, ItemDefModel, ItemsGame, ItemsGameModel,
    MusicDefModel, PaintKitModel, QualityModel, RarityModel, StickerKitModel,
};
use crate::codec::lemma_put_id_unique;
use crate::items_game::{lemma_put_name_unique, unique_names};
use crate::models::{put_id, unique_ids};
use crate::num::{parse_unsigned, parse_unsigned_exec};
use crate::text::{chars_of, string_of};
use crate::vdf::{entries_view, get_block, get_text, lemma_object_tree, parse_text, VdfParseError, VdfParser, VdfTree, VdfValue};

verus! {

/// A localization key without its leading `#`.
pub open spec fn strip_hash(s: Seq<char>) -> Seq<char> {
    if s.len() > 0 && s[0] == '#' {
        s.drop_first()
    } else {
        s
    }
}

/// The string under `key`, or `fallback`.
pub open spec fn text_or(obj: Seq<(Seq<char>, VdfTree)>, key: Seq<char>, fallback: Seq<char>) -> Seq<char> {
    match text_field(obj, key) {
        Some(t) => t,
        None => fallback,
    }
}

/// The number under `key`, or 0 when it is missing or not a number.
pub open spec fn number_or_zero(obj: Seq<(Seq<char>, VdfTree)>, key: Seq<char>) -> u32 {
    match text_field(obj, key) {
        Some(t) => match parse_unsigned(t, u32::MAX as nat) {
            Some(n) => n as u32,
            None => 0,
        },
        None => 0,
    }
}

/// The numeric index of a table key: `default` is 0; other keys that are not
/// numbers have none.
pub open spec fn index_of_key(k: Seq<char>) -> Option<u32> {
    if k == "default"@ {
        Some(0)
    } else {
        match parse_unsigned(k, u32::MAX as nat) {
            Some(n) => Some(n as u32),
            None => None,
        }
    }
}

/// A section of the definitions; empty when it is missing.
pub open spec fn section(root: Seq<(Seq<char>, VdfTree)>, name: Seq<char>) -> Seq<(Seq<char>, VdfTree)> {
    match block_field(root, name) {
        Some(b) => b,
        None => Seq::empty(),
    }
}

/// The name key of an item: its own `item_name`, else that of its prefab, else its name.
pub open spec fn resolved_item_name(key: Seq<char>, obj: Seq<(Seq<char>, VdfTree)>, prefabs: Seq<(Seq<char>, VdfTree)>) -> Seq<char> {
    let name = text_or(obj, "name"@, key);
    match text_field(obj, "item_name"@) {
        Some(n) => n,
        None => match text_field(obj, "prefab"@) {
            None => name,
            Some(p) => match block_field(prefabs, p) {
                Some(pobj) => text_or(pobj, "item_name"@, name),
                None => name,
            },
        },
    }
}

pub open spec fn item_def_of(key: Seq<char>, obj: Seq<(Seq<char>, VdfTree)>, prefabs: Seq<(Seq<char>, VdfTree)>) -> ItemDefModel {
    ItemDefModel {
        name: text_or(obj, "name"@, key),
        item_name: strip_hash(resolved_item_name(key, obj, prefabs)),
        prefab: text_field(obj, "prefab"@),
    }
}

pub open spec fn load_items(es: Seq<(Seq<char>, VdfTree)>, prefabs: Seq<(Seq<char>, VdfTree)>, acc: Seq<(u32, ItemDefModel)>) -> Seq<(u32, ItemDefModel)>
    decreases es.len(),
{
    if es.len() == 0 {
        acc
    } else {
        let next = match (es[0].1, index_of_key(es[0].0)) {
            (VdfTree::Node(obj), Some(i)) => put_id(acc, i, item_def_of(es[0].0, obj, prefabs)),
            _ => acc,
        };
        load_items(es.drop_first(), prefabs, next)
    }
}

pub open spec fn paint_kit_of(key: Seq<char>, obj: Seq<(Seq<char>, VdfTree)>) -> PaintKitModel {
    let name = text_or(obj, "name"@, key);
    PaintKitModel {
        name,
        description_string: strip_hash(text_or(obj, "description_string"@, name)),
        description_tag: strip_hash(text_or(obj, "description_tag"@, name)),
    }
}

pub open spec fn load_paint_kits(es: Seq<(Seq<char>, VdfTree)>, acc: Seq<(u32, PaintKitModel)>) -> Seq<(u32, PaintKitModel)>
    decreases es.len(),
{
    if es.len() == 0 {
        acc
    } else {
        let next = match (es[0].1, index_of_key(es[0].0)) {
            (VdfTree::Node(obj), Some(i)) => put_id(acc, i, paint_kit_of(es[0].0, obj)),
            _ => acc,
        };
        load_paint_kits(es.drop_first(), next)
    }
}

pub open spec fn sticker_kit_of(index: u32, key: Seq<char>, obj: Seq<(Seq<char>, VdfTree)>) -> StickerKitModel {
    let name = text_or(obj, "name"@, key);
    StickerKitModel {
        index,
        name,
        description_string: strip_hash(text_or(obj, "description_string"@, name)),
        item_name: strip_hash(text_or(obj, "item_name"@, name)),
    }
}

pub open spec fn load_sticker_kits(es: Seq<(Seq<char>, VdfTree)>, acc: Seq<(u32, StickerKitModel)>) -> Seq<(u32, StickerKitModel)>
    decreases es.len(),
{
    if es.len() == 0 {
        acc
    } else {
        let next = match (es[0].1, index_of_key(es[0].0)) {
            (VdfTree::Node(obj), Some(i)) => put_id(acc, i, sticker_kit_of(i, es[0].0, obj)),
            _ => acc,
        };
        load_sticker_kits(es.drop_first(), next)
    }
}

pub open spec fn music_def_of(key: Seq<char>, obj: Seq<(Seq<char>, VdfTree)>) -> MusicDefModel {
    MusicDefModel {
        name: key,
        loc_description: match text_field(obj, "loc_description"@) {
            Some(t) => strip_hash(t),
            None => Seq::empty(),
        },
        loc_name: match text_field(obj, "loc_name"@) {
            Some(t) => strip_hash(t),
            None => key,
        },
    }
}

pub open spec fn load_music_defs(es: Seq<(Seq<char>, VdfTree)>, acc: Seq<(u32, MusicDefModel)>) -> Seq<(u32, MusicDefModel)>
    decreases es.len(),
{
    if es.len() == 0 {
        acc
    } else {
        let next = match (es[0].1, index_of_key(es[0].0)) {
            (VdfTree::Node(obj), Some(i)) => put_id(acc, i, music_def_of(es[0].0, obj)),
            _ => acc,
        };
        load_music_defs(es.drop_first(), next)
    }
}

pub open spec fn rarity_of(obj: Seq<(Seq<char>, VdfTree)>) -> RarityModel {
    RarityModel {
        value: number_or_zero(obj, "value"@),
        loc_key: strip_hash(text_or(obj, "loc_key"@, Seq::empty())),
        loc_key_weapon: match text_field(obj, "loc_key_weapon"@) {
            Some(t) => Some(strip_hash(t)),
            None => None,
        },
        loc_key_character: match text_field(obj, "loc_key_character"@) {
            Some(t) => Some(strip_hash(t)),
            None => None,
        },
    }
}

pub open spec fn load_rarities(es: Seq<(Seq<char>, VdfTree)>, acc: Seq<(Seq<char>, RarityModel)>) -> Seq<(Seq<char>, RarityModel)>
    decreases es.len(),
{
    if es.len() == 0 {
        acc
    } else {
        let next = match es[0].1 {
            VdfTree::Node(obj) => put_name(acc, es[0].0, rarity_of(obj)),
            _ => acc,
        };
        load_rarities(es.drop_first(), next)
    }
}

pub open spec fn load_qualities(es: Seq<(Seq<char>, VdfTree)>, acc: Seq<(Seq<char>, QualityModel)>) -> Seq<(Seq<char>, QualityModel)>
    decreases es.len(),
{
    if es.len() == 0 {
        acc
    } else {
        let next = match es[0].1 {
            VdfTree::Node(obj) => put_name(acc, es[0].0, QualityModel { name: es[0].0, value: number_or_zero(obj, "value"@) }),
            _ => acc,
        };
        load_qualities(es.drop_first(), next)
    }
}

pub open spec fn load_graffiti_tints(es: Seq<(Seq<char>, VdfTree)>, acc: Seq<(Seq<char>, GraffitiTintModel)>) -> Seq<(Seq<char>, GraffitiTintModel)>
    decreases es.len(),
{
    if es.len() == 0 {
        acc
    } else {
        let next = match es[0].1 {
            VdfTree::Node(obj) => put_name(
                acc,
                es[0].0,
                GraffitiTintModel {
                    name: es[0].0,
                    id: number_or_zero(obj, "id"@),
                    hex_color: text_or(obj, "hex_color"@, Seq::empty()),
                },
            ),
            _ => acc,
        };
        load_graffiti_tints(es.drop_first(), next)
    }
}

pub open spec fn load_paint_kits_rarity(es: Seq<(Seq<char>, VdfTree)>, acc: Seq<(Seq<char>, Seq<char>)>) -> Seq<(Seq<char>, Seq<char>)>
    decreases es.len(),
{
    if es.len() == 0 {
        acc
    } else {
        let next = match es[0].1 {
            VdfTree::Text(t) => put_name(acc, es[0].0, t),
            _ => acc,
        };
        load_paint_kits_rarity(es.drop_first(), next)
    }
}

/// The tables of a definitions tree: each from its section of `items_game`,
/// empty where the section is missing.
pub open spec fn load_items_game(root: Seq<(Seq<char>, VdfTree)>) -> ItemsGameModel {
    let r = section(root, "items_game"@);
    ItemsGameModel {
        items: load_items(section(r, "items"@), section(r, "prefabs"@), Seq::empty()),
        paint_kits: load_paint_kits(section(r, "paint_kits"@), Seq::empty()),
        sticker_kits: load_sticker_kits(section(r, "sticker_kits"@), Seq::empty()),
        music_defs: load_music_defs(section(r, "music_definitions"@), Seq::empty()),
        rarities: load_rarities(section(r, "rarities"@), Seq::empty()),
        qualities: load_qualities(section(r, "qualities"@), Seq::empty()),
        graffiti_tints: load_graffiti_tints(section(r, "graffiti_tints"@), Seq::empty()),
        paint_kits_rarity: load_paint_kits_rarity(section(r, "paint_kits_rarity"@), Seq::empty()),
    }
}

/// The string under `key`.
pub fn get_string_from_obj(obj: &Vec<(String, VdfValue)>, key: &str) -> (r: Option<String>)
    ensures
        crate::models::opt_view(r) == text_field(entries_view(obj@), key@),
{
    get_text(obj, &String::from_str(key))
}

/// The number under `key`, when it is one.
pub fn get_u32_from_obj(obj: &Vec<(String, VdfValue)>, key: &str) -> (r: Option<u32>)
    ensures
        match text_field(entries_view(obj@), key@) {
            Some(t) => match parse_unsigned(t, u32::MAX as nat) {
                Some(n) => r == Some(n as u32),
                None => r is None,
            },
            None => r is None,
        },
{
    match get_string_from_obj(obj, key) {
        Some(t) => match parse_unsigned_exec(t.as_str(), u32::MAX as u64) {
            Some(n) => Some(n as u32),
            None => None,
        },
        None => None,
    }
}

fn number_or_zero_exec(obj: &Vec<(String, VdfValue)>, key: &str) -> (r: u32)
    ensures
        r == number_or_zero(entries_view(obj@), key@),
{
    match get_u32_from_obj(obj, key) {
        Some(n) => n,
        None => 0,
    }
}

fn text_or_exec(obj: &Vec<(String, VdfValue)>, key: &str, fallback: String) -> (r: String)
    ensures
        r@ == text_or(entries_view(obj@), key@, fallback@),
{
    match get_string_from_obj(obj, key) {
        Some(t) => t,
        None => fallback,
    }
}

/// `s` without a leading `#`.
pub fn strip_hash_exec(s: &String) -> (r: String)
    ensures
        r@ == strip_hash(s@),
{
    let cs = chars_of(s.as_str());
    if cs.len() > 0 && cs[0] == '#' {
        let mut rest: Vec<char> = Vec::new();
        let mut i: usize = 1;
        while i < cs.len()
            invariant
                1 <= i <= cs.len(),
                rest@ == cs@.subrange(1, i as int),
            decreases cs.len() - i,
        {
            rest.push(cs[i]);
            i = i + 1;
            proof {
                assert(rest@ =~= cs@.subrange(1, i as int));
            }
        }
        proof {
            assert(rest@ =~= s@.drop_first());
        }
        string_of(&rest)
    } else {
        s.clone()
    }
}

fn index_of_key_exec(k: &String) -> (r: Option<u32>)
    ensures
        r == index_of_key(k@),
{
    if *k == String::from_str("default") {
        Some(0)
    } else {
        match parse_unsigned_exec(k.as_str(), u32::MAX as u64) {
            Some(n) => Some(n as u32),
            None => None,
        }
    }
}

fn item_def_from(key: &String, obj: &Vec<(String, VdfValue)>, prefabs: &Vec<(String, VdfValue)>) -> (r: IGItem)
    ensures
        r@ == item_def_of(key@, entries_view(obj@), entries_view(prefabs@)),
{
    let name = text_or_exec(obj, "name", key.clone());
    let prefab = get_string_from_obj(obj, "prefab");
    let raw = match get_string_from_obj(obj, "item_name") {
        Some(n) => n,
        None => match &prefab {
            None => name.clone(),
            Some(p) => match get_block(prefabs, p) {
                Some(pobj) => text_or_exec(pobj, "item_name", name.clone()),
                None => name.clone(),
            },
        },
    };
    let item_name = strip_hash_exec(&raw);
    IGItem { name, item_name, prefab }
}

fn paint_kit_from(key: &String, obj: &Vec<(String, VdfValue)>) -> (r: IGPaintKit)
    ensures
        r@ == paint_kit_of(key@, entries_view(obj@)),
{
    let name = text_or_exec(obj, "name", key.clone());
    let description_string = strip_hash_exec(&text_or_exec(obj, "description_string", name.clone()));
    let description_tag = strip_hash_exec(&text_or_exec(obj, "description_tag", name.clone()));
    IGPaintKit { name, description_string, description_tag }
}

fn sticker_kit_from(index: u32, key: &String, obj: &Vec<(String, VdfValue)>) -> (r: IGStickerKit)
    ensures
        r@ == sticker_kit_of(index, key@, entries_view(obj@)),
{
    let name = text_or_exec(obj, "name", key.clone());
    let description_string = strip_hash_exec(&text_or_exec(obj, "description_string", name.clone()));
    let item_name = strip_hash_exec(&text_or_exec(obj, "item_name", name.clone()));
    IGStickerKit { index, name, description_string, item_name }
}

fn music_def_from(key: &String, obj: &Vec<(String, VdfValue)>) -> (r: IGMusicDef)
    ensures
        r@ == music_def_of(key@, entries_view(obj@)),
{
    let loc_name = match get_string_from_obj(obj, "loc_name") {
        Some(t) => strip_hash_exec(&t),
        None => key.clone(),
    };
    let loc_description = match get_string_from_obj(obj, "loc_description") {
        Some(t) => strip_hash_exec(&t),
        None => String::new(),
    };
    IGMusicDef { name: key.clone(), loc_description, loc_name }
}

fn rarity_from(obj: &Vec<(String, VdfValue)>) -> (r: IGRarity)
    ensures
        r@ == rarity_of(entries_view(obj@)),
{
    IGRarity {
        value: number_or_zero_exec(obj, "value"),
        loc_key: strip_hash_exec(&text_or_exec(obj, "loc_key", String::new())),
        loc_key_weapon: match get_string_from_obj(obj, "loc_key_weapon") {
            Some(t) => Some(strip_hash_exec(&t)),
            None => None,
        },
        loc_key_character: match get_string_from_obj(obj, "loc_key_character") {
            Some(t) => Some(strip_hash_exec(&t)),
            None => None,
        },
    }
}

fn parse_items(root_obj: &Vec<(String, VdfValue)>) -> (r: Vec<(u32, IGItem)>)
    ensures
        id_table_view(r@) == load_items(section(entries_view(root_obj@), "items"@), section(entries_view(root_obj@), "prefabs"@), Seq::empty()),
{
    let mut out: Vec<(u32, IGItem)> = Vec::new();
    proof {
        assert(id_table_view(out@) =~= Seq::empty());
    }
    let no_prefabs: Vec<(String, VdfValue)> = Vec::new();
    let prefabs = match get_block(root_obj, &String::from_str("prefabs")) {
        Some(p) => p,
        None => &no_prefabs,
    };
    proof {
        assert(entries_view(no_prefabs@) =~= Seq::empty());
    }
    let block = match get_block(root_obj, &String::from_str("items")) {
        Some(b) => b,
        None => return out,
    };
    let ghost ev = entries_view(block@);
    proof {
        assert(ev.subrange(0, ev.len() as int) =~= ev);
    }
    let mut i: usize = 0;
    while i < block.len()
        invariant
            i <= block.len(),
            ev == entries_view(block@),
            entries_view(prefabs@) == section(entries_view(root_obj@), "prefabs"@),
            load_items(ev, section(entries_view(root_obj@), "prefabs"@), Seq::empty()) == load_items(ev.subrange(i as int, ev.len() as int), section(entries_view(root_obj@), "prefabs"@), id_table_view(out@)),
        decreases block.len() - i,
    {
        proof {
            assert(ev.subrange(i as int, ev.len() as int).drop_first() =~= ev.subrange(i + 1, ev.len() as int));
        }
        match &block[i].1 {
            VdfValue::Object(obj) => {
                proof {
                    lemma_object_tree(*obj);
                }
                match index_of_key_exec(&block[i].0) {
                    Some(index) => {
                        let def = item_def_from(&block[i].0, obj, prefabs);
                        put_by_id(&mut out, index, def);
                    },
                    None => {},
                }
            },
            VdfValue::String(_) => {},
        }
        i = i + 1;
    }
    proof {
        assert(ev.subrange(i as int, ev.len() as int) =~= Seq::empty());
    }
    out
}

fn parse_paint_kits(root_obj: &Vec<(String, VdfValue)>) -> (r: Vec<(u32, IGPaintKit)>)
    ensures
        id_table_view(r@) == load_paint_kits(section(entries_view(root_obj@), "paint_kits"@), Seq::empty()),
{
    let mut out: Vec<(u32, IGPaintKit)> = Vec::new();
    proof {
        assert(id_table_view(out@) =~= Seq::empty());
    }
    let block = match get_block(root_obj, &String::from_str("paint_kits")) {
        Some(b) => b,
        None => return out,
    };
    let ghost ev = entries_view(block@);
    proof {
        assert(ev.subrange(0, ev.len() as int) =~= ev);
    }
    let mut i: usize = 0;
    while i < block.len()
        invariant
            i <= block.len(),
            ev == entries_view(block@),
            load_paint_kits(ev, Seq::empty()) == load_paint_kits(ev.subrange(i as int, ev.len() as int), id_table_view(out@)),
        decreases block.len() - i,
    {
        proof {
            assert(ev.subrange(i as int, ev.len() as int).drop_first() =~= ev.subrange(i + 1, ev.len() as int));
        }
        match &block[i].1 {
            VdfValue::Object(obj) => {
                proof {
                    lemma_object_tree(*obj);
                }
                match index_of_key_exec(&block[i].0) {
                    Some(index) => {
                        let def = paint_kit_from(&block[i].0, obj);
                        put_by_id(&mut out, index, def);
                    },
                    None => {},
                }
            },
            VdfValue::String(_) => {},
        }
        i = i + 1;
    }
    proof {
        assert(ev.subrange(i as int, ev.len() as int) =~= Seq::empty());
    }
    out
}

fn parse_sticker_kits(root_obj: &Vec<(String, VdfValue)>) -> (r: Vec<(u32, IGStickerKit)>)
    ensures
        id_table_view(r@) == load_sticker_kits(section(entries_view(root_obj@), "sticker_kits"@), Seq::empty()),
{
    let mut out: Vec<(u32, IGStickerKit)> = Vec::new();
    proof {
        assert(id_table_view(out@) =~= Seq::empty());
    }
    let block = match get_block(root_obj, &String::from_str("sticker_kits")) {
        Some(b) => b,
        None => return out,
    };
    let ghost ev = entries_view(block@);
    proof {
        assert(ev.subrange(0, ev.len() as int) =~= ev);
    }
    let mut i: usize = 0;
    while i < block.len()
        invariant
            i <= block.len(),
            ev == entries_view(block@),
            load_sticker_kits(ev, Seq::empty()) == load_sticker_kits(ev.subrange(i as int, ev.len() as int), id_table_view(out@)),
        decreases block.len() - i,
    {
        proof {
            assert(ev.subrange(i as int, ev.len() as int).drop_first() =~= ev.subrange(i + 1, ev.len() as int));
        }
        match &block[i].1 {
            VdfValue::Object(obj) => {
                proof {
                    lemma_object_tree(*obj);
                }
                match index_of_key_exec(&block[i].0) {
                    Some(index) => {
                        let def = sticker_kit_from(index, &block[i].0, obj);
                        put_by_id(&mut out, index, def);
                    },
                    None => {},
                }
            },
            VdfValue::String(_) => {},
        }
        i = i + 1;
    }
    proof {
        assert(ev.subrange(i as int, ev.len() as int) =~= Seq::empty());
    }
    out
}

fn parse_music_definitions(root_obj: &Vec<(String, VdfValue)>) -> (r: Vec<(u32, IGMusicDef)>)
    ensures
        id_table_view(r@) == load_music_defs(section(entries_view(root_obj@), "music_definitions"@), Seq::empty()),
{
    let mut out: Vec<(u32, IGMusicDef)> = Vec::new();
    proof {
        assert(id_table_view(out@) =~= Seq::empty());
    }
    let block = match get_block(root_obj, &String::from_str("music_definitions")) {
        Some(b) => b,
        None => return out,
    };
    let ghost ev = entries_view(block@);
    proof {
        assert(ev.subrange(0, ev.len() as int) =~= ev);
    }
    let mut i: usize = 0;
    while i < block.len()
        invariant
            i <= block.len(),
            ev == entries_view(block@),
            load_music_defs(ev, Seq::empty()) == load_music_defs(ev.subrange(i as int, ev.len() as int), id_table_view(out@)),
        decreases block.len() - i,
    {
        proof {
            assert(ev.subrange(i as int, ev.len() as int).drop_first() =~= ev.subrange(i + 1, ev.len() as int));
        }
        match &block[i].1 {
            VdfValue::Object(obj) => {
                proof {
                    lemma_object_tree(*obj);
                }
                match index_of_key_exec(&block[i].0) {
                    Some(index) => {
                        let def = music_def_from(&block[i].0, obj);
                        put_by_id(&mut out, index, def);
                    },
                    None => {},
                }
            },
            VdfValue::String(_) => {},
        }
        i = i + 1;
    }
    proof {
        assert(ev.subrange(i as int, ev.len() as int) =~= Seq::empty());
    }
    out
}

fn parse_rarities(root_obj: &Vec<(String, VdfValue)>) -> (r: Vec<(String, IGRarity)>)
    ensures
        name_table_view(r@) == load_rarities(section(entries_view(root_obj@), "rarities"@), Seq::empty()),
{
    let mut out: Vec<(String, IGRarity)> = Vec::new();
    proof {
        assert(name_table_view(out@) =~= Seq::empty());
    }
    let block = match get_block(root_obj, &String::from_str("rarities")) {
        Some(b) => b,
        None => return out,
    };
    let ghost ev = entries_view(block@);
    proof {
        assert(ev.subrange(0, ev.len() as int) =~= ev);
    }
    let mut i: usize = 0;
    while i < block.len()
        invariant
            i <= block.len(),
            ev == entries_view(block@),
            load_rarities(ev, Seq::empty()) == load_rarities(ev.subrange(i as int, ev.len() as int), name_table_view(out@)),
        decreases block.len() - i,
    {
        proof {
            assert(ev.subrange(i as int, ev.len() as int).drop_first() =~= ev.subrange(i + 1, ev.len() as int));
        }
        match &block[i].1 {
            VdfValue::Object(obj) => {
                proof {
                    lemma_object_tree(*obj);
                }
                let def = rarity_from(obj);
                put_by_name(&mut out, block[i].0.clone(), def);
            },
            VdfValue::String(_) => {},
        }
        i = i + 1;
    }
    proof {
        assert(ev.subrange(i as int, ev.len() as int) =~= Seq::empty());
    }
    out
}

fn parse_qualities(root_obj: &Vec<(String, VdfValue)>) -> (r: Vec<(String, IGQuality)>)
    ensures
        name_table_view(r@) == load_qualities(section(entries_view(root_obj@), "qualities"@), Seq::empty()),
{
    let mut out: Vec<(String, IGQuality)> = Vec::new();
    proof {
        assert(name_table_view(out@) =~= Seq::empty());
    }
    let block = match get_block(root_obj, &String::from_str("qualities")) {
        Some(b) => b,
        None => return out,
    };
    let ghost ev = entries_view(block@);
    proof {
        assert(ev.subrange(0, ev.len() as int) =~= ev);
    }
    let mut i: usize = 0;
    while i < block.len()
        invariant
            i <= block.len(),
            ev == entries_view(block@),
            load_qualities(ev, Seq::empty()) == load_qualities(ev.subrange(i as int, ev.len() as int), name_table_view(out@)),
        decreases block.len() - i,
    {
        proof {
            assert(ev.subrange(i as int, ev.len() as int).drop_first() =~= ev.subrange(i + 1, ev.len() as int));
        }
        match &block[i].1 {
            VdfValue::Object(obj) => {
                proof {
                    lemma_object_tree(*obj);
                }
                let def = IGQuality { name: block[i].0.clone(), value: number_or_zero_exec(obj, "value") };
                put_by_name(&mut out, block[i].0.clone(), def);
            },
            VdfValue::String(_) => {},
        }
        i = i + 1;
    }
    proof {
        assert(ev.subrange(i as int, ev.len() as int) =~= Seq::empty());
    }
    out
}

fn parse_graffiti_tints(root_obj: &Vec<(String, VdfValue)>) -> (r: Vec<(String, IGGraffitiTint)>)
    ensures
        name_table_view(r@) == load_graffiti_tints(section(entries_view(root_obj@), "graffiti_tints"@), Seq::empty()),
{
    let mut out: Vec<(String, IGGraffitiTint)> = Vec::new();
    proof {
        assert(name_table_view(out@) =~= Seq::empty());
    }
    let block = match get_block(root_obj, &String::from_str("graffiti_tints")) {
        Some(b) => b,
        None => return out,
    };
    let ghost ev = entries_view(block@);
    proof {
        assert(ev.subrange(0, ev.len() as int) =~= ev);
    }
    let mut i: usize = 0;
    while i < block.len()
        invariant
            i <= block.len(),
            ev == entries_view(block@),
            load_graffiti_tints(ev, Seq::empty()) == load_graffiti_tints(ev.subrange(i as int, ev.len() as int), name_table_view(out@)),
        decreases block.len() - i,
    {
        proof {
            assert(ev.subrange(i as int, ev.len() as int).drop_first() =~= ev.subrange(i + 1, ev.len() as int));
        }
        match &block[i].1 {
            VdfValue::Object(obj) => {
                proof {
                    lemma_object_tree(*obj);
                }
                let def = IGGraffitiTint { name: block[i].0.clone(), id: number_or_zero_exec(obj, "id"), hex_color: text_or_exec(obj, "hex_color", String::new()) };
                put_by_name(&mut out, block[i].0.clone(), def);
            },
            VdfValue::String(_) => {},
        }
        i = i + 1;
    }
    proof {
        assert(ev.subrange(i as int, ev.len() as int) =~= Seq::empty());
    }
    out
}

fn parse_paint_kits_rarity(root_obj: &Vec<(String, VdfValue)>) -> (r: Vec<(String, String)>)
    ensures
        string_pairs_view(r@) == load_paint_kits_rarity(section(entries_view(root_obj@), "paint_kits_rarity"@), Seq::empty()),
{
    let mut out: Vec<(String, String)> = Vec::new();
    proof {
        assert(string_pairs_view(out@) =~= Seq::empty());
    }
    let block = match get_block(root_obj, &String::from_str("paint_kits_rarity")) {
        Some(b) => b,
        None => return out,
    };
    let ghost ev = entries_view(block@);
    proof {
        assert(ev.subrange(0, ev.len() as int) =~= ev);
    }
    let mut i: usize = 0;
    while i < block.len()
        invariant
            i <= block.len(),
            ev == entries_view(block@),
            load_paint_kits_rarity(ev, Seq::empty()) == load_paint_kits_rarity(ev.subrange(i as int, ev.len() as int), string_pairs_view(out@)),
        decreases block.len() - i,
    {
        proof {
            assert(ev.subrange(i as int, ev.len() as int).drop_first() =~= ev.subrange(i + 1, ev.len() as int));
        }
        match &block[i].1 {
            VdfValue::String(t) => {
                let ghost before = out@;
                put_by_name(&mut out, block[i].0.clone(), t.clone());
                proof {
                    assert(string_pairs_view(out@) =~= name_table_view(out@));
                    assert(string_pairs_view(before) =~= name_table_view(before));
                }
            },
            VdfValue::Object(_) => {},
        }
        i = i + 1;
    }
    proof {
        assert(ev.subrange(i as int, ev.len() as int) =~= Seq::empty());
    }
    out
}

proof fn lemma_load_items_unique(es: Seq<(Seq<char>, VdfTree)>, prefabs: Seq<(Seq<char>, VdfTree)>, acc: Seq<(u32, ItemDefModel)>)
    requires
        unique_ids(acc),
    ensures
        unique_ids(load_items(es, prefabs, acc)),
    decreases es.len(),
{
    if es.len() > 0 {
        let next = match (es[0].1, index_of_key(es[0].0)) {
            (VdfTree::Node(obj), Some(i)) => put_id(acc, i, item_def_of(es[0].0, obj, prefabs)),
            _ => acc,
        };
        if let (VdfTree::Node(obj), Some(i)) = (es[0].1, index_of_key(es[0].0)) {
            lemma_put_id_unique(acc, i, item_def_of(es[0].0, obj, prefabs));
        }
        lemma_load_items_unique(es.drop_first(), prefabs, next);
    }
}

proof fn lemma_load_paint_kits_unique(es: Seq<(Seq<char>, VdfTree)>, acc: Seq<(u32, PaintKitModel)>)
    requires
        unique_ids(acc),
    ensures
        unique_ids(load_paint_kits(es, acc)),
    decreases es.len(),
{
    if es.len() > 0 {
        let next = match (es[0].1, index_of_key(es[0].0)) {
            (VdfTree::Node(obj), Some(i)) => put_id(acc, i, paint_kit_of(es[0].0, obj)),
            _ => acc,
        };
        if let (VdfTree::Node(obj), Some(i)) = (es[0].1, index_of_key(es[0].0)) {
            lemma_put_id_unique(acc, i, paint_kit_of(es[0].0, obj));
        }
        lemma_load_paint_kits_unique(es.drop_first(), next);
    }
}

proof fn lemma_load_sticker_kits_unique(es: Seq<(Seq<char>, VdfTree)>, acc: Seq<(u32, StickerKitModel)>)
    requires
        unique_ids(acc),
    ensures
        unique_ids(load_sticker_kits(es, acc)),
    decreases es.len(),
{
    if es.len() > 0 {
        let next = match (es[0].1, index_of_key(es[0].0)) {
            (VdfTree::Node(obj), Some(i)) => put_id(acc, i, sticker_kit_of(i, es[0].0, obj)),
            _ => acc,
        };
        if let (VdfTree::Node(obj), Some(i)) = (es[0].1, index_of_key(es[0].0)) {
            lemma_put_id_unique(acc, i, sticker_kit_of(i, es[0].0, obj));
        }
        lemma_load_sticker_kits_unique(es.drop_first(), next);
    }
}

proof fn lemma_load_music_defs_unique(es: Seq<(Seq<char>, VdfTree)>, acc: Seq<(u32, MusicDefModel)>)
    requires
        unique_ids(acc),
    ensures
        unique_ids(load_music_defs(es, acc)),
    decreases es.len(),
{
    if es.len() > 0 {
        let next = match (es[0].1, index_of_key(es[0].0)) {
            (VdfTree::Node(obj), Some(i)) => put_id(acc, i, music_def_of(es[0].0, obj)),
            _ => acc,
        };
        if let (VdfTree::Node(obj), Some(i)) = (es[0].1, index_of_key(es[0].0)) {
            lemma_put_id_unique(acc, i, music_def_of(es[0].0, obj));
        }
        lemma_load_music_defs_unique(es.drop_first(), next);
    }
}

proof fn lemma_load_rarities_unique(es: Seq<(Seq<char>, VdfTree)>, acc: Seq<(Seq<char>, RarityModel)>)
    requires
        unique_names(acc),
    ensures
        unique_names(load_rarities(es, acc)),
    decreases es.len(),
{
    if es.len() > 0 {
        let next = match es[0].1 {
            VdfTree::Node(obj) => put_name(acc, es[0].0, rarity_of(obj)),
            _ => acc,
        };
        if let VdfTree::Node(obj) = es[0].1 {
            lemma_put_name_unique(acc, es[0].0, rarity_of(obj));
        }
        lemma_load_rarities_unique(es.drop_first(), next);
    }
}

proof fn lemma_load_qualities_unique(es: Seq<(Seq<char>, VdfTree)>, acc: Seq<(Seq<char>, QualityModel)>)
    requires
        unique_names(acc),
    ensures
        unique_names(load_qualities(es, acc)),
    decreases es.len(),
{
    if es.len() > 0 {
        let next = match es[0].1 {
            VdfTree::Node(obj) => put_name(acc, es[0].0, QualityModel { name: es[0].0, value: number_or_zero(obj, "value"@) }),
            _ => acc,
        };
        if let VdfTree::Node(obj) = es[0].1 {
            lemma_put_name_unique(acc, es[0].0, QualityModel { name: es[0].0, value: number_or_zero(obj, "value"@) });
        }
        lemma_load_qualities_unique(es.drop_first(), next);
    }
}

proof fn lemma_load_graffiti_tints_unique(es: Seq<(Seq<char>, VdfTree)>, acc: Seq<(Seq<char>, GraffitiTintModel)>)
    requires
        unique_names(acc),
    ensures
        unique_names(load_graffiti_tints(es, acc)),
    decreases es.len(),
{
    if es.len() > 0 {
        let next = match es[0].1 {
            VdfTree::Node(obj) => put_name(acc, es[0].0, GraffitiTintModel { name: es[0].0, id: number_or_zero(obj, "id"@), hex_color: text_or(obj, "hex_color"@, Seq::empty()) }),
            _ => acc,
        };
        if let VdfTree::Node(obj) = es[0].1 {
            lemma_put_name_unique(acc, es[0].0, GraffitiTintModel { name: es[0].0, id: number_or_zero(obj, "id"@), hex_color: text_or(obj, "hex_color"@, Seq::empty()) });
        }
        lemma_load_graffiti_tints_unique(es.drop_first(), next);
    }
}

proof fn lemma_load_paint_kits_rarity_unique(es: Seq<(Seq<char>, VdfTree)>, acc: Seq<(Seq<char>, Seq<char>)>)
    requires
        unique_names(acc),
    ensures
        unique_names(load_paint_kits_rarity(es, acc)),
    decreases es.len(),
{
    if es.len() > 0 {
        let next = match es[0].1 {
            VdfTree::Text(t) => put_name(acc, es[0].0, t),
            _ => acc,
        };
        if let VdfTree::Text(t) = es[0].1 {
            lemma_put_name_unique(acc, es[0].0, t);
        }
        lemma_load_paint_kits_rarity_unique(es.drop_first(), next);
    }
}

/// The tables of any definitions tree hold each key once.
pub proof fn lemma_load_items_game_wf(root: Seq<(Seq<char>, VdfTree)>)
    ensures
        load_items_game(root).wf(),
{
    let r = section(root, "items_game"@);
    lemma_load_items_unique(section(r, "items"@), section(r, "prefabs"@), Seq::empty());
    lemma_load_paint_kits_unique(section(r, "paint_kits"@), Seq::empty());
    lemma_load_sticker_kits_unique(section(r, "sticker_kits"@), Seq::empty());
    lemma_load_music_defs_unique(section(r, "music_definitions"@), Seq::empty());
    lemma_load_rarities_unique(section(r, "rarities"@), Seq::empty());
    lemma_load_qualities_unique(section(r, "qualities"@), Seq::empty());
    lemma_load_graffiti_tints_unique(section(r, "graffiti_tints"@), Seq::empty());
    lemma_load_paint_kits_rarity_unique(section(r, "paint_kits_rarity"@), Seq::empty());
}

/// Why the definitions could not be read.
pub enum ItemsGameLoadError {
    Io(String),
    Parse(VdfParseError),
}

pub struct ItemsGameLoader;

impl ItemsGameLoader {
    /// Reads the definition tables from text.
    pub fn parse_from_str(content: &str) -> (r: Result<ItemsGame, ItemsGameLoadError>)
        ensures
            match parse_text(content@) {
                Ok(root) => r matches Ok(g) && g@ == load_items_game(root) && g@.wf(),
                Err((k, p)) => r matches Err(ItemsGameLoadError::Parse(e)) && e.kind == k && e.position == p,
            },
    {
        let vdf = match VdfParser::parse(content) {
            Ok(v) => v,
            Err(e) => return Err(ItemsGameLoadError::Parse(e)),
        };
        Ok(Self::from_tree(&vdf))
    }

    /// The definition tables of a parsed text.
    pub fn from_tree(vdf: &Vec<(String, VdfValue)>) -> (r: ItemsGame)
        ensures
            r@ == load_items_game(entries_view(vdf@)),
            r@.wf(),
    {
        proof {
            lemma_load_items_game_wf(entries_view(vdf@));
        }
        let empty: Vec<(String, VdfValue)> = Vec::new();
        let root_obj = match get_block(vdf, &String::from_str("items_game")) {
            Some(b) => b,
            None => &empty,
        };
        proof {
            assert(entries_view(empty@) =~= Seq::empty());
        }
        let r = ItemsGame {
            items: parse_items(root_obj),
            paint_kits: parse_paint_kits(root_obj),
            sticker_kits: parse_sticker_kits(root_obj),
            music_defs: parse_music_definitions(root_obj),
            rarities: parse_rarities(root_obj),
            qualities: parse_qualities(root_obj),
            graffiti_tints: parse_graffiti_tints(root_obj),
            paint_kits_rarity: parse_paint_kits_rarity(root_obj),
        };
        r
    }
}

} // verus!
