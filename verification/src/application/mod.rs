//! The board model behind the configurator window: pages, keys and layouts.

pub mod backlight;
pub mod key;
pub mod keyboard;
pub mod layout;
pub mod page;
pub mod picker;
