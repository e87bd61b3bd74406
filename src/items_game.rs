use vstd::prelude::*;
use crate::models::{find_id, id_lookup, put_id};

verus! {

/// A localization map. Entries are kept in the order they were added; a later
/// entry for a key hides the earlier ones.
pub struct GameTranslation {
    pub map: Vec<(String, String)>,
}

pub open spec fn string_pairs_view(ps: Seq<(String, String)>) -> Seq<(Seq<char>, Seq<char>)> {
    ps.map_values(|p: (String, String)| (p.0@, p.1@))
}

/// The text of the last entry for `k`.
pub open spec fn translated(ps: Seq<(Seq<char>, Seq<char>)>, k: Seq<char>) -> Option<Seq<char>>
    decreases ps.len(),
{
    if ps.len() == 0 {
        None
    } else if ps.last().0 == k {
        Some(ps.last().1)
    } else {
        translated(ps.drop_last(), k)
    }
}

/// The translation of `k`, or `k` itself.
pub open spec fn translated_or(ps: Seq<(Seq<char>, Seq<char>)>, k: Seq<char>, fallback: Seq<char>) -> Seq<char> {
    match translated(ps, k) {
        Some(t) => t,
        None => fallback,
    }
}

impl View for GameTranslation {
    type V = Seq<(Seq<char>, Seq<char>)>;

    open spec fn view(&self) -> Seq<(Seq<char>, Seq<char>)> {
        string_pairs_view(self.map@)
    }
}

impl GameTranslation {
    pub fn new() -> (r: Self)
        ensures
            r@.len() == 0,
    {
        GameTranslation { map: Vec::new() }
    }

    /// The text stored last under `key`.
    pub fn get(&self, key: &String) -> (r: Option<&String>)
        ensures
            match translated(self@, key@) {
                Some(t) => r matches Some(s) && s@ == t,
                None => r is None,
            },
    {
        let mut i = self.map.len();
        proof {
            assert(self@.subrange(0, i as int) =~= self@);
        }
        while i > 0
            invariant
                i <= self.map.len(),
                translated(self@, key@) == translated(self@.subrange(0, i as int), key@),
            decreases i,
        {
            proof {
                assert(self@.subrange(0, i as int).drop_last() =~= self@.subrange(0, i - 1));
            }
            if self.map[i - 1].0 == *key {
                return Some(&self.map[i - 1].1);
            }
            i = i - 1;
        }
        None
    }

    /// Adds an entry; it hides any earlier one for the same key.
    pub fn insert(&mut self, key: String, value: String)
        ensures
            final(self)@ == old(self)@.push((key@, value@)),
    {
        self.map.push((key, value));
        proof {
            assert(self@ =~= old(self)@.push((key@, value@)));
        }
    }
}

/// The translation of `key`, or `fallback` when there is none.
fn translate_or(t: &GameTranslation, key: &String, fallback: &String) -> (r: String)
    ensures
        r@ == translated_or(t@, key@, fallback@),
{
    match t.get(key) {
        Some(s) => s.clone(),
        None => fallback.clone(),
    }
}

pub struct ItemDefModel {
    pub name: Seq<char>,
    pub item_name: Seq<char>,
    pub prefab: Option<Seq<char>>,
}

pub struct IGItem {
    pub name: String,
    pub item_name: String,
    pub prefab: Option<String>,
}

impl View for IGItem {
    type V = ItemDefModel;

    open spec fn view(&self) -> ItemDefModel {
        ItemDefModel { name: self.name@, item_name: self.item_name@, prefab: crate::models::opt_view(self.prefab) }
    }
}

impl IGItem {
    /// The translation of the item's name key, or the key itself.
    pub fn get_display_name(&self, translations: &GameTranslation) -> (r: String)
        ensures
            r@ == translated_or(translations@, self.item_name@, self.item_name@),
    {
        translate_or(translations, &self.item_name, &self.item_name)
    }
}

pub struct PaintKitModel {
    pub name: Seq<char>,
    pub description_string: Seq<char>,
    pub description_tag: Seq<char>,
}

pub struct IGPaintKit {
    pub name: String,
    pub description_string: String,
    pub description_tag: String,
}

impl View for IGPaintKit {
    type V = PaintKitModel;

    open spec fn view(&self) -> PaintKitModel {
        PaintKitModel { name: self.name@, description_string: self.description_string@, description_tag: self.description_tag@ }
    }
}

impl IGPaintKit {
    /// The translation of the description tag, or the description string.
    pub fn get_display_name(&self, translations: &GameTranslation) -> (r: String)
        ensures
            r@ == translated_or(translations@, self.description_tag@, self.description_string@),
    {
        translate_or(translations, &self.description_tag, &self.description_string)
    }
}

pub struct StickerKitModel {
    pub index: u32,
    pub name: Seq<char>,
    pub description_string: Seq<char>,
    pub item_name: Seq<char>,
}

pub struct IGStickerKit {
    pub index: u32,
    pub name: String,
    pub description_string: String,
    pub item_name: String,
}

impl View for IGStickerKit {
    type V = StickerKitModel;

    open spec fn view(&self) -> StickerKitModel {
        StickerKitModel { index: self.index, name: self.name@, description_string: self.description_string@, item_name: self.item_name@ }
    }
}

impl IGStickerKit {
    /// The translation of the name key, or the key itself.
    pub fn get_display_name(&self, translations: &GameTranslation) -> (r: String)
        ensures
            r@ == translated_or(translations@, self.item_name@, self.item_name@),
    {
        translate_or(translations, &self.item_name, &self.item_name)
    }
}

pub struct MusicDefModel {
    pub name: Seq<char>,
    pub loc_description: Seq<char>,
    pub loc_name: Seq<char>,
}

pub struct IGMusicDef {
    pub name: String,
    pub loc_description: String,
    pub loc_name: String,
}

impl View for IGMusicDef {
    type V = MusicDefModel;

    open spec fn view(&self) -> MusicDefModel {
        MusicDefModel { name: self.name@, loc_description: self.loc_description@, loc_name: self.loc_name@ }
    }
}

impl IGMusicDef {
    /// The translation of the name key, or the key itself.
    pub fn get_display_name(&self, translations: &GameTranslation) -> (r: String)
        ensures
            r@ == translated_or(translations@, self.loc_name@, self.loc_name@),
    {
        translate_or(translations, &self.loc_name, &self.loc_name)
    }
}

pub struct RarityModel {
    pub value: u32,
    pub loc_key: Seq<char>,
    pub loc_key_weapon: Option<Seq<char>>,
    pub loc_key_character: Option<Seq<char>>,
}

pub struct IGRarity {
    pub value: u32,
    pub loc_key: String,
    pub loc_key_weapon: Option<String>,
    pub loc_key_character: Option<String>,
}

impl View for IGRarity {
    type V = RarityModel;

    open spec fn view(&self) -> RarityModel {
        RarityModel {
            value: self.value,
            loc_key: self.loc_key@,
            loc_key_weapon: crate::models::opt_view(self.loc_key_weapon),
            loc_key_character: crate::models::opt_view(self.loc_key_character),
        }
    }
}

pub struct QualityModel {
    pub name: Seq<char>,
    pub value: u32,
}

pub struct IGQuality {
    pub name: String,
    pub value: u32,
}

impl View for IGQuality {
    type V = QualityModel;

    open spec fn view(&self) -> QualityModel {
        QualityModel { name: self.name@, value: self.value }
    }
}

impl IGQuality {
    /// The translation of the quality's name, or the name itself.
    pub fn get_display_name(&self, translations: &GameTranslation) -> (r: String)
        ensures
            r@ == translated_or(translations@, self.name@, self.name@),
    {
        translate_or(translations, &self.name, &self.name)
    }
}

pub struct GraffitiTintModel {
    pub name: Seq<char>,
    pub id: u32,
    pub hex_color: Seq<char>,
}

pub struct IGGraffitiTint {
    pub name: String,
    pub id: u32,
    pub hex_color: String,
}

impl View for IGGraffitiTint {
    type V = GraffitiTintModel;

    open spec fn view(&self) -> GraffitiTintModel {
        GraffitiTintModel { name: self.name@, id: self.id, hex_color: self.hex_color@ }
    }
}

/// The views of the values of an id-keyed table.
pub open spec fn id_table_view<T: View>(ps: Seq<(u32, T)>) -> Seq<(u32, T::V)> {
    ps.map_values(|p: (u32, T)| (p.0, p.1@))
}

/// The views of a name-keyed table.
pub open spec fn name_table_view<T: View>(ps: Seq<(String, T)>) -> Seq<(Seq<char>, T::V)> {
    ps.map_values(|p: (String, T)| (p.0@, p.1@))
}

/// Index of the entry named `k`, searching from `i`; -1 when there is none.
pub open spec fn find_name<V>(ps: Seq<(Seq<char>, V)>, k: Seq<char>, i: int) -> int
    decreases ps.len() - i,
{
    if i < 0 || i >= ps.len() {
        -1
    } else if ps[i].0 == k {
        i
    } else {
        find_name(ps, k, i + 1)
    }
}

/// Stores `v` under `k`, in place or at the end.
pub open spec fn put_name<V>(ps: Seq<(Seq<char>, V)>, k: Seq<char>, v: V) -> Seq<(Seq<char>, V)> {
    let i = find_name(ps, k, 0);
    if i >= 0 {
        ps.update(i, (k, v))
    } else {
        ps.push((k, v))
    }
}

/// Each name occurs once.
pub open spec fn unique_names<V>(ps: Seq<(Seq<char>, V)>) -> bool {
    forall|i: int, j: int| 0 <= i < j < ps.len() ==> ps[i].0 != ps[j].0
}

proof fn lemma_find_name_result<V>(ps: Seq<(Seq<char>, V)>, k: Seq<char>, i: int)
    requires
        0 <= i,
    ensures
        find_name(ps, k, i) == -1 ==> forall|j: int| i <= j < ps.len() ==> ps[j].0 != k,
        find_name(ps, k, i) != -1 ==> i <= find_name(ps, k, i) < ps.len() && ps[find_name(ps, k, i)].0 == k,
    decreases ps.len() - i,
{
    if 0 <= i < ps.len() && ps[i].0 != k {
        lemma_find_name_result(ps, k, i + 1);
    }
}

pub proof fn lemma_put_name_unique<V>(ps: Seq<(Seq<char>, V)>, k: Seq<char>, v: V)
    requires
        unique_names(ps),
    ensures
        unique_names(put_name(ps, k, v)),
{
    lemma_find_name_result(ps, k, 0);
}

/// The game's definition tables, each key once.
pub struct ItemsGame {
    pub items: Vec<(u32, IGItem)>,
    pub paint_kits: Vec<(u32, IGPaintKit)>,
    pub sticker_kits: Vec<(u32, IGStickerKit)>,
    pub music_defs: Vec<(u32, IGMusicDef)>,
    pub rarities: Vec<(String, IGRarity)>,
    pub qualities: Vec<(String, IGQuality)>,
    pub graffiti_tints: Vec<(String, IGGraffitiTint)>,
    pub paint_kits_rarity: Vec<(String, String)>,
}

/// The tables as plain values.
pub struct ItemsGameModel {
    pub items: Seq<(u32, ItemDefModel)>,
    pub paint_kits: Seq<(u32, PaintKitModel)>,
    pub sticker_kits: Seq<(u32, StickerKitModel)>,
    pub music_defs: Seq<(u32, MusicDefModel)>,
    pub rarities: Seq<(Seq<char>, RarityModel)>,
    pub qualities: Seq<(Seq<char>, QualityModel)>,
    pub graffiti_tints: Seq<(Seq<char>, GraffitiTintModel)>,
    pub paint_kits_rarity: Seq<(Seq<char>, Seq<char>)>,
}

impl ItemsGameModel {
    /// Each table holds each key once.
    pub open spec fn wf(self) -> bool {
        &&& crate::models::unique_ids(self.items)
        &&& crate::models::unique_ids(self.paint_kits)
        &&& crate::models::unique_ids(self.sticker_kits)
        &&& crate::models::unique_ids(self.music_defs)
        &&& unique_names(self.rarities)
        &&& unique_names(self.qualities)
        &&& unique_names(self.graffiti_tints)
        &&& unique_names(self.paint_kits_rarity)
    }
}

impl View for ItemsGame {
    type V = ItemsGameModel;

    open spec fn view(&self) -> ItemsGameModel {
        ItemsGameModel {
            items: id_table_view(self.items@),
            paint_kits: id_table_view(self.paint_kits@),
            sticker_kits: id_table_view(self.sticker_kits@),
            music_defs: id_table_view(self.music_defs@),
            rarities: name_table_view(self.rarities@),
            qualities: name_table_view(self.qualities@),
            graffiti_tints: name_table_view(self.graffiti_tints@),
            paint_kits_rarity: string_pairs_view(self.paint_kits_rarity@),
        }
    }
}

impl Default for ItemsGame {
    fn default() -> (r: Self)
        ensures
            r@.items.len() == 0,
            r@.paint_kits.len() == 0,
            r@.sticker_kits.len() == 0,
            r@.music_defs.len() == 0,
            r@.rarities.len() == 0,
            r@.qualities.len() == 0,
            r@.graffiti_tints.len() == 0,
            r@.paint_kits_rarity.len() == 0,
    {
        ItemsGame {
            items: Vec::new(),
            paint_kits: Vec::new(),
            sticker_kits: Vec::new(),
            music_defs: Vec::new(),
            rarities: Vec::new(),
            qualities: Vec::new(),
            graffiti_tints: Vec::new(),
            paint_kits_rarity: Vec::new(),
        }
    }
}

/// The value under `k` in an id-keyed table.
pub fn get_by_id<T: View>(ps: &Vec<(u32, T)>, k: u32) -> (r: Option<&T>)
    ensures
        match id_lookup(id_table_view(ps@), k) {
            Some(v) => r matches Some(x) && x@ == v,
            None => r is None,
        },
{
    proof {
        lemma_find_id_table(ps@, k, 0);
    }
    let mut i: usize = 0;
    while i < ps.len()
        invariant
            i <= ps.len(),
            find_id(ps@, k, 0) == find_id(ps@, k, i as int),
            find_id(id_table_view(ps@), k, 0) == find_id(ps@, k, 0),
        decreases ps.len() - i,
    {
        if ps[i].0 == k {
            return Some(&ps[i].1);
        }
        i = i + 1;
    }
    None
}

proof fn lemma_find_id_table<T: View>(ps: Seq<(u32, T)>, k: u32, i: int)
    requires
        0 <= i,
    ensures
        find_id(id_table_view(ps), k, i) == find_id(ps, k, i),
    decreases ps.len() - i,
{
    if i < ps.len() {
        lemma_find_id_table(ps, k, i + 1);
    }
}

/// Stores `v` under `k` in an id-keyed table.
pub fn put_by_id<T: View>(ps: &mut Vec<(u32, T)>, k: u32, v: T)
    ensures
        id_table_view(final(ps)@) == put_id(id_table_view(old(ps)@), k, v@),
{
    proof {
        lemma_find_id_table(ps@, k, 0);
    }
    let mut i: usize = 0;
    while i < ps.len()
        invariant
            i <= ps.len(),
            find_id(ps@, k, 0) == find_id(ps@, k, i as int),
            find_id(id_table_view(ps@), k, 0) == find_id(ps@, k, 0),
            ps@ == old(ps)@,
        decreases ps.len() - i,
    {
        if ps[i].0 == k {
            let ghost before = ps@;
            ps.set(i, (k, v));
            proof {
                assert(id_table_view(ps@) =~= id_table_view(before).update(i as int, (k, v@)));
            }
            return;
        }
        i = i + 1;
    }
    let ghost before = ps@;
    ps.push((k, v));
    proof {
        assert(id_table_view(ps@) =~= id_table_view(before).push((k, v@)));
    }
}

proof fn lemma_find_name_table<T: View>(ps: Seq<(String, T)>, k: Seq<char>, i: int)
    requires
        0 <= i,
    ensures
        find_name(name_table_view(ps), k, i) == -1 <==> (forall|j: int| i <= j < ps.len() ==> ps[j].0@ != k),
        find_name(name_table_view(ps), k, i) != -1 ==> i <= find_name(name_table_view(ps), k, i) < ps.len()
            && ps[find_name(name_table_view(ps), k, i)].0@ == k
            && forall|j: int| i <= j < find_name(name_table_view(ps), k, i) ==> ps[j].0@ != k,
    decreases ps.len() - i,
{
    if i < ps.len() {
        lemma_find_name_table(ps, k, i + 1);
    }
}

/// Stores `v` under `k` in a name-keyed table.
pub fn put_by_name<T: View>(ps: &mut Vec<(String, T)>, k: String, v: T)
    ensures
        name_table_view(final(ps)@) == put_name(name_table_view(old(ps)@), k@, v@),
{
    proof {
        lemma_find_name_table(ps@, k@, 0);
    }
    let mut i: usize = 0;
    while i < ps.len()
        invariant
            i <= ps.len(),
            forall|j: int| 0 <= j < i ==> ps[j].0@ != k@,
            ps@ == old(ps)@,
        decreases ps.len() - i,
    {
        if ps[i].0 == k {
            let ghost before = ps@;
            let ghost kv = k@;
            let ghost vv = v@;
            ps.set(i, (k, v));
            proof {
                lemma_find_name_table(before, kv, 0);
                let f = find_name(name_table_view(before), kv, 0);
                assert(before[i as int].0@ == kv);
                assert(f == i as int) by {
                    if f == -1 {
                        assert(before[i as int].0@ != kv);
                    } else if f < i {
                        assert(before[f].0@ != kv);
                    } else if f > i {
                        assert(before[i as int].0@ != kv);
                    }
                }
                assert(name_table_view(ps@) =~= name_table_view(before).update(i as int, (kv, vv)));
            }
            return;
        }
        i = i + 1;
    }
    let ghost before = ps@;
    let ghost kv = k@;
    let ghost vv = v@;
    ps.push((k, v));
    proof {
        lemma_find_name_table(before, kv, 0);
        assert(name_table_view(ps@) =~= name_table_view(before).push((kv, vv)));
    }
}

} // verus!
