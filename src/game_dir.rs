use vstd::prelude::*;

use vstd::string::StringExecFns;

use crate::text::concat;

verus! {

/// The inventory file, relative to the game directory.
pub open spec fn inventory_file_name() -> Seq<char> {
    "csgo_gc/inventory.txt"@
}

/// A detected game installation: its directory and its inventory file.
pub struct GameDir {
    pub path: String,
    pub inventory_path: String,
}

impl GameDir {
    /// The installation rooted at `path`; the inventory file lies under it.
    pub fn at(path: &str) -> (r: Self)
        ensures
            r.path@ == path@,
            r.inventory_path@ == path@ + "/"@ + inventory_file_name(),
    {
        let dir = concat(path, "/");
        GameDir { path: String::from_str(path), inventory_path: concat(dir.as_str(), "csgo_gc/inventory.txt") }
    }

    pub fn path(&self) -> (r: &String)
        ensures
            r == &self.path,
    {
        &self.path
    }

    pub fn inventory_path(&self) -> (r: &String)
        ensures
            r == &self.inventory_path,
    {
        &self.inventory_path
    }
}

/// Why no game installation was found.
pub enum GameDirError {
    NotFound { reason: String },
    Io(String),
}

} // verus!
