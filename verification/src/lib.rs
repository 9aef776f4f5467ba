//! The load order of a game's plugins, and which of them are active, for the
//! games that keep the order in the modification times of the plugin files and
//! the active plugins in a small text file.
//!
//! The library holds the rules and works on plain values: what is read from
//! disk is handed to it, and what is to be written is handed back. A
//! [`load_order::timestamp_based::TimestampBasedLoadOrder`] is loaded from the
//! plugins that were found installed and from the bytes of the active plugins
//! file; saving it gives the plugins their new modification times and hands
//! back the bytes of the new file.
pub mod codepage;
pub mod enums;
pub mod game_settings;
pub mod lines;
pub mod load_order;
pub mod plugin;
