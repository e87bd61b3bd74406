use vstd::prelude::*;

use crate::codec::{decode_inventory, parse_inventory_text, InventoryError, InventoryParser, VdfInventoryParser};
use crate::models::Inventory;
use crate::vdf::parse_text;

verus! {

/// Why an inventory could not be loaded.
pub enum InventoryLoadError {
    Io(String),
    Parse(InventoryError),
}

/// Why an inventory could not be saved.
pub enum InventorySaveError {
    Io(String),
}

/// A parser's outcome as a load outcome.
pub open spec fn lift_parse(pr: Result<Inventory, InventoryError>) -> Result<Inventory, InventoryLoadError> {
    match pr {
        Ok(inv) => Ok(inv),
        Err(e) => Err(InventoryLoadError::Parse(e)),
    }
}

/// Loads inventories in the game's key-value format.
pub struct InventoryLoader;

impl InventoryLoader {
    /// Reads an inventory from the text of an inventory file.
    pub fn parse_from_str(content: &str) -> (r: Result<Inventory, InventoryLoadError>)
        ensures
            match parse_text(content@) {
                Err((k, p)) => r matches Err(InventoryLoadError::Parse(InventoryError::Syntax(x))) && x.kind == k && x.position == p,
                Ok(root) => match decode_inventory(root) {
                    Ok(m) => r matches Ok(inv) && inv@ == m,
                    Err(e) => r matches Err(InventoryLoadError::Parse(InventoryError::Decode(x))) && x == e,
                },
            },
            exists|pr: Result<Inventory, InventoryError>|
                VdfInventoryParser.parses_to(content@, pr) && #[trigger] lift_parse(pr) == r,
    {
        let pr = parse_inventory_text(content);
        let r = match pr {
            Ok(inv) => Ok(inv),
            Err(e) => Err(InventoryLoadError::Parse(e)),
        };
        assert(lift_parse(pr) == r);
        r
    }
}

/// Loads inventories through a chosen format.
pub struct InventoryLoaderRef<'a, P: InventoryParser> {
    pub parser: &'a P,
}

impl<'a, P: InventoryParser> InventoryLoaderRef<'a, P> {
    pub fn new(parser: &'a P) -> (r: Self)
        ensures
            r.parser == parser,
    {
        InventoryLoaderRef { parser }
    }

    /// Reads an inventory with the loader's format: what the format's `parse`
    /// gives, with its error wrapped as a parse error.
    pub fn parse_from_str(&self, content: &str) -> (r: Result<Inventory, InventoryLoadError>)
        ensures
            exists|pr: Result<Inventory, InventoryError>|
                self.parser.parses_to(content@, pr) && #[trigger] lift_parse(pr) == r,
    {
        let pr = self.parser.parse(content);
        let r = match pr {
            Ok(inv) => Ok(inv),
            Err(e) => Err(InventoryLoadError::Parse(e)),
        };
        assert(lift_parse(pr) == r);
        r
    }

    /// Writes an inventory with the loader's format.
    pub fn serialize(&self, inventory: &Inventory) -> (r: String)
        ensures
            self.parser.serializes_to(inventory@, r@),
    {
        self.parser.serialize(inventory)
    }
}

} // verus!
