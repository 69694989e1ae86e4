//! The physical layout of a keyboard, as written in its physical.json: rows of
//! keycap names, each possibly preceded by a change of position, size or color.

use vstd::prelude::*;

verus! {

/// physical.json: layout-wide metadata and rows of keys, positions and
/// sizes in thousandths of a standard key.
pub struct PhysicalLayout(pub Vec<PhysicalLayoutEntry>);

/// An entry of physical.json: metadata of the layout, or a row.
pub enum PhysicalLayoutEntry {
    Meta(PhysicalLayoutMeta),
    Row(PhysicalRow),
}

/// The layout's name and author.
pub struct PhysicalLayoutMeta {
    pub name: String,
    pub author: String,
}

/// A row: keycap names and the metadata entries between them.
pub struct PhysicalRow(pub Vec<PhysicalKeyEnum>);

/// An item of a row: a keycap name, or metadata for the keys after it.
pub enum PhysicalKeyEnum {
    Name(String),
    Meta(PhysicalKeyMeta),
}

/// A change applied before the next key of a row. Offsets and sizes are in
/// thousandths of a standard key; `c` and `t` are the background and text
/// colors, each a marker character followed by six hexadecimal digits.
pub struct PhysicalKeyMeta {
    pub x: i64,
    pub y: i64,
    pub w: Option<i64>,
    pub h: Option<i64>,
    pub c: Option<String>,
    pub t: Option<String>,
}

} // verus!
