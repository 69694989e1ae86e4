//! Keyboard configuration logic for System76 keyboards: key layouts, keymap
//! labels, picker groups and the board daemon protocol.

pub mod text;
pub mod color;
pub mod configurator_app;
pub mod strmap;
pub mod testing;
pub mod application;
pub mod cli;
pub mod daemon;
pub mod keyboard;
pub mod keycode;
pub mod matrix;
pub mod page;
pub mod picker;
pub mod selected_keys;
