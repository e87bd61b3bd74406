use vstd::prelude::*;

use crate::item_attribute::{unknown_label, unknown_label_exec};
use crate::items_game::{
    get_by_id, name_table_view, translated, translated_or, GameTranslation, GraffitiTintModel, ItemsGame,
    ItemsGameModel, RarityModel,
};
use crate::models::{id_lookup, pairs_view, Item, ItemModel};
use crate::num::{decimal, decimal_exec, parse_truncated, parse_truncated_exec, parse_unsigned, parse_unsigned_exec};
use crate::text::concat;

verus! {

/// `??? <id>`, the name of an unknown item definition.
pub open spec fn unknown_item_label(id: u32) -> Seq<char> {
    "??? "@ + decimal(id as nat)
}

pub open spec fn item_display(g: ItemsGameModel, def_index: u32, t: Seq<(Seq<char>, Seq<char>)>) -> Seq<char> {
    match id_lookup(g.items, def_index) {
        Some(d) => translated_or(t, d.item_name, d.item_name),
        None => unknown_item_label(def_index),
    }
}

pub open spec fn paint_kit_display(g: ItemsGameModel, index: u32, t: Seq<(Seq<char>, Seq<char>)>) -> Option<Seq<char>> {
    match id_lookup(g.paint_kits, index) {
        Some(p) => Some(translated_or(t, p.description_tag, p.description_string)),
        None => None,
    }
}

pub open spec fn sticker_kit_display(g: ItemsGameModel, index: u32, t: Seq<(Seq<char>, Seq<char>)>) -> Option<Seq<char>> {
    match id_lookup(g.sticker_kits, index) {
        Some(k) => Some(translated_or(t, k.item_name, k.item_name)),
        None => None,
    }
}

pub open spec fn music_def_display(g: ItemsGameModel, index: u32, t: Seq<(Seq<char>, Seq<char>)>) -> Option<Seq<char>> {
    match id_lookup(g.music_defs, index) {
        Some(m) => Some(translated_or(t, m.loc_name, m.loc_name)),
        None => None,
    }
}

/// The paint attribute's value read as a decimal fraction and truncated.
pub open spec fn paint_id_of(v: Seq<char>) -> Option<u32> {
    match parse_truncated(v, u32::MAX as nat) {
        Some(n) => Some(n as u32),
        None => None,
    }
}

pub open spec fn id_of(v: Seq<char>) -> Option<u32> {
    match parse_unsigned(v, u32::MAX as nat) {
        Some(n) => Some(n as u32),
        None => None,
    }
}

pub open spec fn paint_suffix(g: ItemsGameModel, attrs: Seq<(u32, Seq<char>)>, t: Seq<(Seq<char>, Seq<char>)>) -> Option<Seq<char>> {
    match id_lookup(attrs, 6) {
        Some(v) => match paint_id_of(v) {
            Some(p) => paint_kit_display(g, p, t),
            None => None,
        },
        None => None,
    }
}

pub open spec fn music_suffix(g: ItemsGameModel, attrs: Seq<(u32, Seq<char>)>, t: Seq<(Seq<char>, Seq<char>)>) -> Option<Seq<char>> {
    match id_lookup(attrs, 166) {
        Some(v) => match id_of(v) {
            Some(m) => music_def_display(g, m, t),
            None => None,
        },
        None => None,
    }
}

pub open spec fn sticker_suffix(g: ItemsGameModel, attrs: Seq<(u32, Seq<char>)>, t: Seq<(Seq<char>, Seq<char>)>) -> Option<Seq<char>> {
    match id_lookup(attrs, 113) {
        Some(v) => match id_of(v) {
            Some(k) => sticker_kit_display(g, k, t),
            None => None,
        },
        None => None,
    }
}

/// The first of the descriptors that resolves: paint, then music kit, then the first sticker.
pub open spec fn item_suffix(g: ItemsGameModel, attrs: Seq<(u32, Seq<char>)>, t: Seq<(Seq<char>, Seq<char>)>) -> Option<Seq<char>> {
    match paint_suffix(g, attrs, t) {
        Some(s) => Some(s),
        None => match music_suffix(g, attrs, t) {
            Some(s) => Some(s),
            None => sticker_suffix(g, attrs, t),
        },
    }
}

/// The full display name of an item: its base name, and ` | ` with the descriptor when one resolves.
pub open spec fn item_full_name(g: ItemsGameModel, it: ItemModel, t: Seq<(Seq<char>, Seq<char>)>) -> Seq<char> {
    let base = item_display(g, it.def_index, t);
    match item_suffix(g, it.attributes, t) {
        Some(s) => base + " | "@ + s,
        None => base,
    }
}

/// The name of the first tint whose id is `id`.
pub open spec fn tint_name(tints: Seq<(Seq<char>, GraffitiTintModel)>, id: u32) -> Option<Seq<char>>
    decreases tints.len(),
{
    if tints.len() == 0 {
        None
    } else if tints[0].1.id == id {
        Some(tints[0].1.name)
    } else {
        tint_name(tints.drop_first(), id)
    }
}

pub open spec fn is_sticker_id_attribute(attr_id: u32) -> bool {
    attr_id == 113 || attr_id == 117 || attr_id == 121 || attr_id == 125 || attr_id == 129 || attr_id == 133
}

/// How an attribute's value is shown: paint, sticker, music and tint ids by
/// their names (a paint also with its id), anything else as it is.
pub open spec fn attribute_value_display(g: ItemsGameModel, attr_id: u32, v: Seq<char>, t: Seq<(Seq<char>, Seq<char>)>) -> Seq<char> {
    if attr_id == 6 {
        match paint_id_of(v) {
            Some(p) => match paint_kit_display(g, p, t) {
                Some(n) => n + " ("@ + decimal(p as nat) + ")"@,
                None => v,
            },
            None => v,
        }
    } else if is_sticker_id_attribute(attr_id) {
        match id_of(v) {
            Some(k) => match sticker_kit_display(g, k, t) {
                Some(n) => n,
                None => v,
            },
            None => v,
        }
    } else if attr_id == 166 {
        match id_of(v) {
            Some(m) => match music_def_display(g, m, t) {
                Some(n) => n,
                None => v,
            },
            None => v,
        }
    } else if attr_id == 233 {
        match id_of(v) {
            Some(i) => match tint_name(g.graffiti_tints, i) {
                Some(n) => n,
                None => v,
            },
            None => v,
        }
    } else {
        v
    }
}

/// The first rarity whose numeric value is `value`.
pub open spec fn rarity_with_value(rs: Seq<(Seq<char>, RarityModel)>, value: u32) -> Option<RarityModel>
    decreases rs.len(),
{
    if rs.len() == 0 {
        None
    } else if rs[0].1.value == value {
        Some(rs[0].1)
    } else {
        rarity_with_value(rs.drop_first(), value)
    }
}

/// The name of a rarity: the translation of its weapon key, else of its key,
/// else the key itself; `Unknown (<id>)` for an unknown value.
pub open spec fn rarity_display(g: ItemsGameModel, value: u32, t: Seq<(Seq<char>, Seq<char>)>) -> Seq<char> {
    match rarity_with_value(g.rarities, value) {
        None => unknown_label(value),
        Some(r) => match r.loc_key_weapon {
            Some(w) if translated(t, w) is Some => translated(t, w)->Some_0,
            _ => translated_or(t, r.loc_key, r.loc_key),
        },
    }
}

fn id_of_exec(v: &String) -> (r: Option<u32>)
    ensures
        r == id_of(v@),
{
    match parse_unsigned_exec(v.as_str(), u32::MAX as u64) {
        Some(n) => Some(n as u32),
        None => None,
    }
}

fn paint_id_of_exec(v: &String) -> (r: Option<u32>)
    ensures
        r == paint_id_of(v@),
{
    match parse_truncated_exec(v.as_str(), u32::MAX as u64) {
        Some(n) => Some(n as u32),
        None => None,
    }
}

fn attribute_value(attrs: &Vec<(u32, String)>, id: u32) -> (r: Option<&String>)
    ensures
        match id_lookup(pairs_view(attrs@), id) {
            Some(v) => r matches Some(s) && s@ == v,
            None => r is None,
        },
{
    proof {
        crate::models::lemma_find_id_view(attrs@, id, 0);
    }
    match crate::models::find_id_exec(attrs, id) {
        Some(i) => Some(&attrs[i].1),
        None => None,
    }
}

impl ItemsGame {
    pub fn get_item_display_name(&self, def_index: u32, translations: &GameTranslation) -> (r: String)
        ensures
            r@ == item_display(self@, def_index, translations@),
    {
        match get_by_id(&self.items, def_index) {
            Some(item) => item.get_display_name(translations),
            None => {
                let digits = decimal_exec(def_index as u128);
                concat("??? ", digits.as_str())
            },
        }
    }

    pub fn get_paint_kit_display_name(&self, paint_index: u32, translations: &GameTranslation) -> (r: Option<String>)
        ensures
            crate::models::opt_view(r) == paint_kit_display(self@, paint_index, translations@),
    {
        match get_by_id(&self.paint_kits, paint_index) {
            Some(pk) => Some(pk.get_display_name(translations)),
            None => None,
        }
    }

    pub fn get_sticker_kit_display_name(&self, sticker_index: u32, translations: &GameTranslation) -> (r: Option<String>)
        ensures
            crate::models::opt_view(r) == sticker_kit_display(self@, sticker_index, translations@),
    {
        match get_by_id(&self.sticker_kits, sticker_index) {
            Some(sk) => Some(sk.get_display_name(translations)),
            None => None,
        }
    }

    pub fn get_music_def_display_name(&self, music_index: u32, translations: &GameTranslation) -> (r: Option<String>)
        ensures
            crate::models::opt_view(r) == music_def_display(self@, music_index, translations@),
    {
        match get_by_id(&self.music_defs, music_index) {
            Some(md) => Some(md.get_display_name(translations)),
            None => None,
        }
    }

    fn item_suffix_exec(&self, attrs: &Vec<(u32, String)>, translations: &GameTranslation) -> (r: Option<String>)
        ensures
            crate::models::opt_view(r) == item_suffix(self@, pairs_view(attrs@), translations@),
    {
        if let Some(v) = attribute_value(attrs, 6) {
            if let Some(paint_id) = paint_id_of_exec(v) {
                if let Some(name) = self.get_paint_kit_display_name(paint_id, translations) {
                    return Some(name);
                }
            }
        }
        if let Some(v) = attribute_value(attrs, 166) {
            if let Some(music_id) = id_of_exec(v) {
                if let Some(name) = self.get_music_def_display_name(music_id, translations) {
                    return Some(name);
                }
            }
        }
        if let Some(v) = attribute_value(attrs, 113) {
            if let Some(sticker_id) = id_of_exec(v) {
                if let Some(name) = self.get_sticker_kit_display_name(sticker_id, translations) {
                    return Some(name);
                }
            }
        }
        None
    }

    /// The full display name of an item.
    pub fn get_item_full_name(&self, item: &Item, translations: &GameTranslation) -> (r: String)
        ensures
            r@ == item_full_name(self@, item@, translations@),
    {
        let item_name = self.get_item_display_name(item.def_index, translations);
        match self.item_suffix_exec(&item.attributes, translations) {
            Some(suffix) => {
                let head = concat(item_name.as_str(), " | ");
                concat(head.as_str(), suffix.as_str())
            },
            None => item_name,
        }
    }

    /// The name of the rarity with numeric value `rarity_id`.
    pub fn get_rarity_name(&self, rarity_id: u32, translations: &GameTranslation) -> (r: String)
        ensures
            r@ == rarity_display(self@, rarity_id, translations@),
    {
        let ghost rs = name_table_view(self.rarities@);
        let mut i: usize = 0;
        proof {
            assert(rs.subrange(0, rs.len() as int) =~= rs);
        }
        while i < self.rarities.len()
            invariant
                i <= self.rarities.len(),
                rs == name_table_view(self.rarities@),
                rarity_with_value(rs, rarity_id) == rarity_with_value(rs.subrange(i as int, rs.len() as int), rarity_id),
            decreases self.rarities.len() - i,
        {
            proof {
                assert(rs.subrange(i as int, rs.len() as int).drop_first() =~= rs.subrange(i + 1, rs.len() as int));
            }
            let rarity = &self.rarities[i].1;
            if rarity.value == rarity_id {
                if let Some(w) = &rarity.loc_key_weapon {
                    if let Some(s) = translations.get(w) {
                        return s.clone();
                    }
                }
                return match translations.get(&rarity.loc_key) {
                    Some(s) => s.clone(),
                    None => rarity.loc_key.clone(),
                };
            }
            i = i + 1;
        }
        unknown_label_exec(rarity_id)
    }

    fn tint_name_exec(&self, id: u32) -> (r: Option<String>)
        ensures
            crate::models::opt_view(r) == tint_name(self@.graffiti_tints, id),
    {
        let ghost ts = name_table_view(self.graffiti_tints@);
        let mut i: usize = 0;
        proof {
            assert(ts.subrange(0, ts.len() as int) =~= ts);
        }
        while i < self.graffiti_tints.len()
            invariant
                i <= self.graffiti_tints.len(),
                ts == name_table_view(self.graffiti_tints@),
                tint_name(ts, id) == tint_name(ts.subrange(i as int, ts.len() as int), id),
            decreases self.graffiti_tints.len() - i,
        {
            proof {
                assert(ts.subrange(i as int, ts.len() as int).drop_first() =~= ts.subrange(i + 1, ts.len() as int));
            }
            if self.graffiti_tints[i].1.id == id {
                return Some(self.graffiti_tints[i].1.name.clone());
            }
            i = i + 1;
        }
        None
    }
}

/// How an attribute's value is shown.
pub fn get_attribute_value_display_name(attr_id: u32, value: &String, items_game: &ItemsGame, translations: &GameTranslation) -> (r: String)
    ensures
        r@ == attribute_value_display(items_game@, attr_id, value@, translations@),
{
    if attr_id == 6 {
        if let Some(paint_id) = paint_id_of_exec(value) {
            if let Some(paint_name) = items_game.get_paint_kit_display_name(paint_id, translations) {
                let digits = decimal_exec(paint_id as u128);
                let a = concat(paint_name.as_str(), " (");
                let b = concat(a.as_str(), digits.as_str());
                return concat(b.as_str(), ")");
            }
        }
        value.clone()
    } else if attr_id == 113 || attr_id == 117 || attr_id == 121 || attr_id == 125 || attr_id == 129 || attr_id == 133 {
        if let Some(sticker_id) = id_of_exec(value) {
            if let Some(sticker_name) = items_game.get_sticker_kit_display_name(sticker_id, translations) {
                return sticker_name;
            }
        }
        value.clone()
    } else if attr_id == 166 {
        if let Some(music_id) = id_of_exec(value) {
            if let Some(music_name) = items_game.get_music_def_display_name(music_id, translations) {
                return music_name;
            }
        }
        value.clone()
    } else if attr_id == 233 {
        if let Some(tint_id) = id_of_exec(value) {
            if let Some(name) = items_game.tint_name_exec(tint_id) {
                return name;
            }
        }
        value.clone()
    } else {
        value.clone()
    }
}

} // verus!
