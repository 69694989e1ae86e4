//! A layout's meta.json: its display name and what its firmware supports.

use vstd::prelude::*;

verus! {

/// The number of layers of a layout whose meta.json does not say.
pub fn num_layers_default() -> (n: u8)
    ensures
        n == 2,
{
    2
}

/// A layout's meta.json: the board's display name, whether it has lighting
/// modes and lighting per layer, and its number of layers.
pub struct Meta {
    pub display_name: String,
    pub has_mode: bool,
    pub has_per_layer: bool,
    pub num_layers: u8,
}

} // verus!
