pub mod codec;
pub mod display;
pub mod editor;
pub mod item_attribute;
pub mod items_game;
pub mod items_game_loader;
pub mod game_dir;
pub mod language_file;
pub mod loader;
pub mod models;
pub mod num;
pub mod text;
pub mod vdf;
