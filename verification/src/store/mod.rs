//! Everything the frontend keeps on the card: which core runs a cart, the display and
//! slot settings, favourites and recents, the shelf's last highlight, save-state rings and
//! the library scan. Each file format is a pair of functions from text to values and back;
//! the card itself is read and written by the caller.
pub mod ini;
pub mod path;
pub mod platform;
pub mod cores;
pub mod scan;
pub mod slot_state;
pub mod recents;
pub mod favorites;
pub mod font;
pub mod lcd;
pub mod last_shelf;
pub mod display_prefs;
pub mod gb;
pub mod gba;
pub mod ring;
pub mod migrate;
pub mod library;
