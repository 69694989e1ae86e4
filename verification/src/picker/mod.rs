//! The key picker: its groups of keys, how they are laid out in rows, and the
//! tap-hold chooser.

pub mod group_box;
pub mod picker_json;
pub mod tap_hold;

use vstd::prelude::*;
use vstd::string::StringExecFns;

use crate::application::keyboard::KeymapSet;
use crate::selected_keys::SelectedKeys;

verus! {

/// The scancodes to store when a picker key is pressed: the key's name on
/// the current layer of every selected key, each key once; nothing on a page
/// that is not a layer.
pub fn key_pressed_sets(selected: &SelectedKeys, layer: Option<usize>, name: &str) -> (r: Vec<KeymapSet>)
    ensures
        layer is None ==> r@.len() == 0,
        layer matches Some(l) ==> {
            &&& r@.len() == selected@.len()
            &&& forall|i: int|
                0 <= i < r@.len() ==> (#[trigger] r@[i]).layer == l && r@[i].scancode_name@ == name@ && selected@.contains(
                    r@[i].key,
                )
            &&& forall|i: int, j: int| 0 <= i < j < r@.len() ==> (#[trigger] r@[i]).key != (#[trigger] r@[j]).key
        },
{
    let mut r: Vec<KeymapSet> = Vec::new();
    match layer {
        Some(l) => {
            let keys = selected.to_vec();
            let mut i: usize = 0;
            while i < keys.len()
                invariant
                    keys@.to_set() == selected@,
                    keys@.no_duplicates(),
                    i <= keys@.len(),
                    r@.len() == i,
                    forall|j: int|
                        0 <= j < i ==> (#[trigger] r@[j]).key == keys@[j] && r@[j].layer == l && r@[j].scancode_name@
                            == name@,
                decreases keys@.len() - i,
            {
                r.push(KeymapSet { key: keys[i], layer: l, scancode_name: String::from_str(name) });
                i = i + 1;
            }
            proof {
                assert forall|j: int| 0 <= j < r@.len() implies selected@.contains((#[trigger] r@[j]).key) by {
                    assert(keys@.to_set().contains(keys@[j]));
                }
                assert forall|a: int, b: int| 0 <= a < b < r@.len() implies (#[trigger] r@[a]).key != (#[trigger] r@[b]).key by {
                    assert(keys@[a] != keys@[b]);
                }
            }
        },
        None => {},
    }
    r
}

} // verus!
