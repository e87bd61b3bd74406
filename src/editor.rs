use vstd::prelude::*;
use vstd::string::StringExecFns;

use crate::display::{item_full_name, rarity_display};
use crate::game_dir::GameDir;
use crate::items_game::{GameTranslation, ItemsGame};
use crate::models::{Inventory, Item};

verus! {

/// The rarity grades of items.
#[derive(Clone, Copy, PartialEq, Eq, Structural, Debug)]
pub enum Rarity {
    Default,
    Consumer,
    Industrial,
    MilSpec,
    Restricted,
    Classified,
    Covert,
    Contraband,
}

/// The grade with numeric value `value`; values past 7 are the default grade.
pub open spec fn rarity_of_value(value: u32) -> Rarity {
    if value == 1 {
        Rarity::Consumer
    } else if value == 2 {
        Rarity::Industrial
    } else if value == 3 {
        Rarity::MilSpec
    } else if value == 4 {
        Rarity::Restricted
    } else if value == 5 {
        Rarity::Classified
    } else if value == 6 {
        Rarity::Covert
    } else if value == 7 {
        Rarity::Contraband
    } else {
        Rarity::Default
    }
}

impl Rarity {
    pub fn from_u32(value: u32) -> (r: Self)
        ensures
            r == rarity_of_value(value),
    {
        match value {
            1 => Rarity::Consumer,
            2 => Rarity::Industrial,
            3 => Rarity::MilSpec,
            4 => Rarity::Restricted,
            5 => Rarity::Classified,
            6 => Rarity::Covert,
            7 => Rarity::Contraband,
            _ => Rarity::Default,
        }
    }
}

/// The inventory views that the editor offers.
#[derive(Clone, Copy, PartialEq, Eq, Structural, Debug)]
pub enum InventoryCategory {
    All,
    Equipped,
    StickerAndGraffiti,
    CasesAndMore,
    Collectibles,
}

impl Default for InventoryCategory {
    fn default() -> (r: Self)
        ensures
            r == InventoryCategory::All,
    {
        InventoryCategory::All
    }
}

/// The edits pending in an item's window.
pub struct EditItemState {
    pub level: u32,
    pub custom_name: String,
}

/// The editor's state: the loaded data and what the user has open.
pub struct CsgoInventoryEditor {
    pub inventory: Inventory,
    pub items_game: ItemsGame,
    pub translations: GameTranslation,
    pub selected_category: InventoryCategory,
    pub selected_subcategory: Option<String>,
    pub search_query: String,
    pub open_item_windows: Vec<u64>,
    pub edit_item_states: Vec<(u64, EditItemState)>,
    pub select_window_open: bool,
    pub select_window_items: Vec<(String, String, String)>,
    pub select_window_search: String,
    pub select_window_selected: Option<usize>,
    pub select_window_title: String,
    pub select_window_key_header: String,
    pub select_window_value_header: String,
    pub current_language: String,
    pub game_dir: Option<GameDir>,
}

impl Default for CsgoInventoryEditor {
    fn default() -> (r: Self)
        ensures
            r.inventory@.items.len() == 0,
            r.translations@.len() == 0,
            r.items_game@.items.len() == 0,
            r.game_dir is None,
            r.select_window_open == false,
    {
        Self::with_data(Inventory::default(), ItemsGame::default(), GameTranslation::new(), None)
    }
}

impl CsgoInventoryEditor {
    /// An editor over the given data, with nothing open.
    pub fn with_data(inventory: Inventory, items_game: ItemsGame, translations: GameTranslation, game_dir: Option<GameDir>) -> (r: Self)
        ensures
            r.inventory == inventory,
            r.items_game == items_game,
            r.translations == translations,
            r.game_dir == game_dir,
            r.selected_category == InventoryCategory::All,
            r.selected_subcategory is None,
            r.search_query@.len() == 0,
            r.open_item_windows@.len() == 0,
            r.edit_item_states@.len() == 0,
            r.select_window_open == false,
            r.select_window_items@.len() == 0,
            r.select_window_search@.len() == 0,
            r.select_window_selected is None,
            r.select_window_title@.len() == 0,
            r.select_window_key_header@.len() == 0,
            r.select_window_value_header@.len() == 0,
            r.current_language@ == "en-US"@,
    {
        CsgoInventoryEditor {
            inventory,
            items_game,
            translations,
            selected_category: InventoryCategory::All,
            selected_subcategory: None,
            search_query: String::new(),
            open_item_windows: Vec::new(),
            edit_item_states: Vec::new(),
            select_window_open: false,
            select_window_items: Vec::new(),
            select_window_search: String::new(),
            select_window_selected: None,
            select_window_title: String::new(),
            select_window_key_header: String::new(),
            select_window_value_header: String::new(),
            current_language: String::from_str("en-US"),
            game_dir,
        }
    }

    /// The full display name of an item.
    pub fn get_item_display_name(&self, item: &Item) -> (r: String)
        ensures
            r@ == item_full_name(self.items_game@, item@, self.translations@),
    {
        self.items_game.get_item_full_name(item, &self.translations)
    }

    /// The name of the rarity with numeric value `rarity_id`.
    pub fn get_rarity_name(&self, rarity_id: u32) -> (r: String)
        ensures
            r@ == rarity_display(self.items_game@, rarity_id, self.translations@),
    {
        self.items_game.get_rarity_name(rarity_id, &self.translations)
    }

    /// Switches the interface language; `translations` are the token file of
    /// that language when it could be read, and the current ones stay otherwise.
    pub fn switch_language(&mut self, language: &str, translations: Option<GameTranslation>)
        ensures
            final(self).current_language@ == language@,
            match translations {
                Some(t) => final(self).translations == t,
                None => final(self).translations == old(self).translations,
            },
            final(self).inventory == old(self).inventory,
            final(self).items_game == old(self).items_game,
    {
        self.current_language = String::from_str(language);
        if let Some(t) = translations {
            self.translations = t;
        }
    }

    /// Opens the selection window with a fresh search over `items`.
    pub fn open_select_window(&mut self, title: String, key_header: String, value_header: String, items: Vec<(String, String, String)>)
        ensures
            final(self).select_window_title == title,
            final(self).select_window_key_header == key_header,
            final(self).select_window_value_header == value_header,
            final(self).select_window_items == items,
            final(self).select_window_search@.len() == 0,
            final(self).select_window_selected is None,
            final(self).select_window_open,
            final(self).inventory == old(self).inventory,
            final(self).items_game == old(self).items_game,
            final(self).translations == old(self).translations,
            final(self).selected_category == old(self).selected_category,
            final(self).selected_subcategory == old(self).selected_subcategory,
            final(self).search_query == old(self).search_query,
            final(self).open_item_windows == old(self).open_item_windows,
            final(self).edit_item_states == old(self).edit_item_states,
            final(self).current_language == old(self).current_language,
            final(self).game_dir == old(self).game_dir,
    {
        self.select_window_title = title;
        self.select_window_key_header = key_header;
        self.select_window_value_header = value_header;
        self.select_window_items = items;
        self.select_window_search = String::new();
        self.select_window_selected = None;
        self.select_window_open = true;
    }
}

/// The token file of a language: Simplified Chinese has its own, every other
/// language reads the English one.
pub open spec fn language_file_of(language: Seq<char>) -> Seq<char> {
    if language == "zh-Hans"@ {
        "csgo_schinese.txt"@
    } else {
        "csgo_english.txt"@
    }
}

pub fn language_file_name(language: &str) -> (r: String)
    ensures
        r@ == language_file_of(language@),
{
    if String::from_str(language) == String::from_str("zh-Hans") {
        String::from_str("csgo_schinese.txt")
    } else {
        String::from_str("csgo_english.txt")
    }
}

} // verus!
