//! The decisions of the keyboard view: its title, which pages it shows, how
//! a click selects a key, and which scancodes an imported keymap sets.

use vstd::prelude::*;
use vstd::string::StringExecFns;

use crate::application::key::{Key, KeyView};
use crate::application::layout::{KeyMap, KeyMapLayer};
use crate::strmap::StrMap;
use crate::application::page::{all_pages, Page};
use crate::keyboard::keycodes_view3;
use crate::keycode::{Keycode, KeycodeView};
use crate::matrix::Matrix;
use crate::text::{after_first, str_eq, text_after_first};

verus! {

/// The title of a keyboard: its layout's display name, then in brackets the
/// model after its vendor prefix (the text after the first '/'), marked
/// as fake for a pretend board.
pub open spec fn display_name_text(name: Seq<char>, model_tail: Seq<char>, is_fake: bool) -> Seq<char> {
    name + " ("@ + model_tail + (if is_fake { ", fake)"@ } else { ")"@ })
}

/// The title of a keyboard whose layout is named `name` and whose board
/// model is `model`, such as "system76/launch_1".
pub fn display_name(name: &str, model: &str, is_fake: bool) -> (s: String)
    requires
        after_first(model@, '/') is Some,
    ensures
        s@ == display_name_text(name@, after_first(model@, '/').unwrap(), is_fake),
{
    let tail = text_after_first(model, '/').unwrap();
    let mut s = String::from_str(name);
    s.append(" (");
    s.append(tail);
    if is_fake {
        s.append(", fake)");
    } else {
        s.append(")");
    }
    proof {
        reveal_strlit(" (");
        reveal_strlit(", fake)");
        reveal_strlit(")");
    }
    s
}

/// Whether the view shows `page` of a layout with `num_layers` layers: debug
/// pages only when asked for, and layer pages only for layers the layout has.
pub open spec fn page_shown(page: Page, debug_layers: bool, num_layers: u8) -> bool {
    &&& debug_layers || !page.spec_is_debug()
    &&& page.spec_layer() matches Some(l) ==> l < num_layers
}

/// The pages shown, each with its position in the list of all pages, in
/// that order.
pub open spec fn shown_pages(debug_layers: bool, num_layers: u8, upto: int) -> Seq<(usize, Page)>
    decreases upto,
{
    if upto <= 0 {
        Seq::empty()
    } else {
        let rest = shown_pages(debug_layers, num_layers, upto - 1);
        let p = all_pages()[upto - 1];
        if page_shown(p, debug_layers, num_layers) {
            rest.push(((upto - 1) as usize, p))
        } else {
            rest
        }
    }
}

/// The pages that a keyboard view of a layout with `num_layers` layers
/// shows, each with its position among all pages (which names its action).
pub fn visible_pages(debug_layers: bool, num_layers: u8) -> (v: Vec<(usize, Page)>)
    ensures
        v@ == shown_pages(debug_layers, num_layers, all_pages().len() as int),
{
    let pages = Page::iter_all();
    let mut v: Vec<(usize, Page)> = Vec::new();
    let mut i: usize = 0;
    while i < pages.len()
        invariant
            pages@ == all_pages(),
            i <= pages@.len(),
            v@ == shown_pages(debug_layers, num_layers, i as int),
        decreases pages@.len() - i,
    {
        let page = pages[i];
        let shown = if !debug_layers && page.is_debug() {
            false
        } else {
            match page.layer() {
                Some(layer) => layer < num_layers as usize,
                None => true,
            }
        };
        if shown {
            v.push((i, page));
        }
        i = i + 1;
    }
    v
}

/// The key selected on a layer that allows one key at a time after a click
/// on key `pressed`: a click on the selected key clears the selection.
pub open spec fn clicked_key(selected: Option<usize>, pressed: usize) -> Option<usize> {
    if selected == Some(pressed) {
        None
    } else {
        Some(pressed)
    }
}

/// Applies a click on key `pressed` to a layer that allows one key at a time.
pub fn click_key(selected: Option<usize>, pressed: usize) -> (r: Option<usize>)
    ensures
        r == clicked_key(selected, pressed),
{
    if selected == Some(pressed) {
        None
    } else {
        Some(pressed)
    }
}

/// One scancode to store: on key `key` (its index among the board's keys),
/// on layer `layer`, the scancode named `scancode_name`.
pub struct KeymapSet {
    pub key: usize,
    pub layer: usize,
    pub scancode_name: String,
}

impl View for KeymapSet {
    type V = (usize, usize, Seq<char>);

    open spec fn view(&self) -> (usize, usize, Seq<char>) {
        (self.key, self.layer, self.scancode_name@)
    }
}

/// `i` is the first of `keys` with the logical name `name`.
pub open spec fn is_first_named(keys: Seq<KeyView>, name: Seq<char>, i: int) -> bool {
    &&& 0 <= i < keys.len()
    &&& keys[i].logical_name == name
    &&& forall|j: int| 0 <= j < i ==> keys[j].logical_name != name
}

/// Some key of `keys` has the logical name `name`.
pub open spec fn has_key_named(keys: Seq<KeyView>, name: Seq<char>) -> bool {
    exists|i: int| 0 <= i < keys.len() && keys[i].logical_name == name
}

/// The index of the first key named `name`.
pub open spec fn key_index(keys: Seq<KeyView>, name: Seq<char>) -> int {
    choose|i: int| is_first_named(keys, name, i)
}

/// The scancodes a keymap sets on the key at `key`, layer by layer.
pub open spec fn layer_sets(key: int, scancodes: Seq<String>) -> Seq<(usize, usize, Seq<char>)> {
    Seq::new(scancodes.len(), |l: int| (key as usize, l as usize, scancodes[l]@))
}

/// The scancodes set by importing the keys `names` of a keymap, in order.
pub open spec fn import_sets(keys: Seq<KeyView>, names: Seq<Seq<char>>, map: Map<Seq<char>, Vec<String>>) -> Seq<(usize, usize, Seq<char>)>
    decreases names.len(),
{
    if names.len() == 0 {
        Seq::empty()
    } else {
        let name = names.last();
        import_sets(keys, names.drop_last(), map) + layer_sets(key_index(keys, name), map[name]@)
    }
}

/// Every name that `m` has is the logical name of one of `keys`.
pub open spec fn names_known<V>(m: Map<Seq<char>, V>, keys: Seq<KeyView>) -> bool {
    forall|name: Seq<char>| #[trigger] m.contains_key(name) ==> has_key_named(keys, name)
}

/// Every key that the keymap names, for its scancodes or its LED, is a key
/// of the board.
pub open spec fn keymap_keys_known(keymap: KeyMap, keys: Seq<KeyView>) -> bool {
    names_known(keymap.map@, keys) && names_known(keymap.key_leds@, keys)
}

/// The keymap can be imported on a board with keys `keys` and `num_layers`
/// lighting layers: it names only keys of the board and has no more layers.
pub open spec fn keymap_fits(keymap: KeyMap, keys: Seq<KeyView>, num_layers: nat) -> bool {
    keymap_keys_known(keymap, keys) && keymap.layers@.len() <= num_layers
}

/// The LED colours an imported keymap gives: for each key it names, in
/// order, the key's index and the colour number, or none to turn it off.
pub open spec fn led_sets(keys: Seq<KeyView>, names: Seq<Seq<char>>, leds: Map<Seq<char>, Option<usize>>) -> Seq<
    (usize, Option<usize>),
> {
    Seq::new(names.len(), |i: int| (key_index(keys, names[i]) as usize, leds[names[i]]))
}

/// The lighting an imported keymap gives each layer, in order: its
/// brightness and colour always, its mode and speed where one is set.
pub open spec fn layer_settings(layers: Seq<KeyMapLayer>) -> Seq<LayerSet> {
    Seq::new(
        layers.len(),
        |i: int| LayerSet { layer: i as usize, mode: layers[i].mode, brightness: layers[i].brightness, color: layers[i].color },
    )
}

/// The message for a keymap of another board.
pub open spec fn wrong_board_message(board: Seq<char>) -> Seq<char> {
    "Keymap is for board '"@ + board + "'"@
}

proof fn lemma_first_named_unique(keys: Seq<KeyView>, name: Seq<char>, i: int, k: int)
    requires
        is_first_named(keys, name, i),
        is_first_named(keys, name, k),
    ensures
        i == k,
{
}

/// The index of the first key named `name`.
fn find_key(keys: &Vec<Key>, name: &String) -> (r: usize)
    requires
        has_key_named(keys@.map_values(|k: Key| k@), name@),
    ensures
        r == key_index(keys@.map_values(|k: Key| k@), name@),
        is_first_named(keys@.map_values(|k: Key| k@), name@, r as int),
{
    let ghost kv = keys@.map_values(|k: Key| k@);
    let mut i: usize = 0;
    while i < keys.len()
        invariant
            kv == keys@.map_values(|k: Key| k@),
            has_key_named(kv, name@),
            i <= keys@.len(),
            forall|j: int| 0 <= j < i ==> kv[j].logical_name != name@,
        decreases keys@.len() - i,
    {
        if keys[i].logical_name == *name {
            proof {
                assert(is_first_named(kv, name@, i as int));
                assert forall|k: int| is_first_named(kv, name@, k) implies k == i by {
                    lemma_first_named_unique(kv, name@, i as int, k);
                }
            }
            return i;
        }
        i = i + 1;
    }
    proof {
        let w = choose|j: int| 0 <= j < kv.len() && kv[j].logical_name == name@;
        assert(kv[w].logical_name == name@);
    }
    0
}

/// Whether every name that `m` has is the logical name of one of `keys`.
fn map_names_known<V>(m: &StrMap<V>, keys: &Vec<Key>) -> (b: bool)
    ensures
        b == names_known(m@, keys@.map_values(|k: Key| k@)),
{
    let ghost kv = keys@.map_values(|k: Key| k@);
    let n = m.len();
    let mut i: usize = 0;
    while i < n
        invariant
            kv == keys@.map_values(|k: Key| k@),
            n == m.key_order().len(),
            i <= n,
            forall|j: int| 0 <= j < i ==> has_key_named(kv, #[trigger] m.key_order()[j]),
        decreases n - i,
    {
        let (name, _) = m.entry(i);
        let mut found = false;
        let mut j: usize = 0;
        while j < keys.len()
            invariant
                kv == keys@.map_values(|k: Key| k@),
                j <= keys@.len(),
                found ==> has_key_named(kv, name@),
                !found ==> forall|m: int| 0 <= m < j ==> kv[m].logical_name != name@,
            decreases keys@.len() - j,
        {
            if !found && keys[j].logical_name == *name {
                found = true;
                assert(kv[j as int].logical_name == name@);
            }
            j = j + 1;
        }
        if !found {
            proof {
                assert(m@.contains_key(name@));
                assert(!has_key_named(kv, name@));
            }
            return false;
        }
        i = i + 1;
    }
    proof {
        assert forall|name: Seq<char>| #[trigger] m@.contains_key(name) implies has_key_named(kv, name) by {
            assert(m.key_order().to_set().contains(name));
            let j = choose|j: int| 0 <= j < m.key_order().len() && m.key_order()[j] == name;
            assert(has_key_named(kv, m.key_order()[j]));
        }
    }
    true
}

/// Whether every key that `keymap` names, for its scancodes or its LED, is
/// one of `keys`.
pub fn keymap_names_known_keys(keymap: &KeyMap, keys: &Vec<Key>) -> (b: bool)
    ensures
        b == keymap_keys_known(*keymap, keys@.map_values(|k: Key| k@)),
{
    map_names_known(&keymap.map, keys) && map_names_known(&keymap.key_leds, keys)
}

/// Whether `keymap` can be imported on a board with keys `keys` and
/// `num_layers` lighting layers; see `keymap_fits`.
pub fn keymap_importable(keymap: &KeyMap, keys: &Vec<Key>, num_layers: usize) -> (b: bool)
    ensures
        b == keymap_fits(*keymap, keys@.map_values(|k: Key| k@), num_layers as nat),
{
    keymap_names_known_keys(keymap, keys) && keymap.layers.len() <= num_layers
}

/// The lighting to give one layer on import: its mode and speed where one is
/// set, its brightness, and the number of its colour.
#[derive(Clone, Copy, Debug)]
pub struct LayerSet {
    pub layer: usize,
    pub mode: Option<(u8, u8)>,
    pub brightness: i32,
    pub color: usize,
}

/// What importing a keymap stores: scancodes, LED colours of keys, and the
/// lighting of layers.
pub struct KeymapImport {
    pub scancodes: Vec<KeymapSet>,
    pub leds: Vec<(usize, Option<usize>)>,
    pub layers: Vec<LayerSet>,
}

/// What to store to import `keymap` on a board of model `model` whose keys
/// are `keys` and which has `num_layers` lighting layers: for each key the
/// keymap names, in the keymap's order, its scancode names layer by layer;
/// for each key with an LED entry, in order, its colour or none; and for each
/// layer of the keymap, its brightness, colour, and mode where one is set. A
/// keymap of another board is refused with a message that names the keymap's
/// board.
pub fn import_keymap(keymap: &KeyMap, model: &str, keys: &Vec<Key>, num_layers: usize) -> (r: Result<KeymapImport, String>)
    requires
        keymap.board@ == model@ ==> keymap_fits(*keymap, keys@.map_values(|k: Key| k@), num_layers as nat),
    ensures
        keymap.board@ != model@ ==> (r matches Err(e) && e@ == wrong_board_message(keymap.board@)),
        keymap.board@ == model@ ==> (r matches Ok(v) && {
            &&& v.scancodes@.map_values(|s: KeymapSet| s@) == import_sets(
                keys@.map_values(|k: Key| k@),
                keymap.map.key_order(),
                keymap.map@,
            )
            &&& v.leds@ == led_sets(keys@.map_values(|k: Key| k@), keymap.key_leds.key_order(), keymap.key_leds@)
            &&& v.layers@ == layer_settings(keymap.layers@)
        }),
{
    let model_string = String::from_str(model);
    if keymap.board != model_string {
        let mut e = String::from_str("Keymap is for board '");
        e.append(keymap.board.as_str());
        e.append("'");
        proof {
            reveal_strlit("Keymap is for board '");
            reveal_strlit("'");
        }
        return Err(e);
    }
    let ghost kv = keys@.map_values(|k: Key| k@);
    let ghost names = keymap.map.key_order();
    let n = keymap.map.len();
    let mut sets: Vec<KeymapSet> = Vec::new();
    let mut i: usize = 0;
    assert(names.take(0) =~= Seq::<Seq<char>>::empty());
    while i < n
        invariant
            kv == keys@.map_values(|k: Key| k@),
            names == keymap.map.key_order(),
            n == names.len(),
            i <= n,
            names_known(keymap.map@, kv),
            sets@.map_values(|s: KeymapSet| s@) == import_sets(kv, names.take(i as int), keymap.map@),
        decreases n - i,
    {
        let (name, scancodes) = keymap.map.entry(i);
        assert(keymap.map@.contains_key(name@));
        let key = find_key(keys, name);
        let ghost before = sets@.map_values(|s: KeymapSet| s@);
        let mut layer: usize = 0;
        while layer < scancodes.len()
            invariant
                sets@.map_values(|s: KeymapSet| s@) == before + layer_sets(key as int, scancodes@).take(layer as int),
                layer <= scancodes@.len(),
            decreases scancodes@.len() - layer,
        {
            let scancode_name = scancodes[layer].clone();
            assert(scancode_name@ == scancodes@[layer as int]@);
            let ghost prev = sets@;
            sets.push(KeymapSet { key, layer, scancode_name });
            assert(sets@.map_values(|s: KeymapSet| s@) =~= prev.map_values(|s: KeymapSet| s@).push(
                (key, layer, scancodes@[layer as int]@),
            ));
            assert(layer_sets(key as int, scancodes@).take(layer + 1) =~= layer_sets(key as int, scancodes@).take(
                layer as int,
            ).push((key, layer, scancodes@[layer as int]@)));
            assert(sets@.map_values(|s: KeymapSet| s@) =~= before + layer_sets(key as int, scancodes@).take(layer + 1));
            layer = layer + 1;
        }
        assert(layer_sets(key as int, scancodes@).take(layer as int) =~= layer_sets(key as int, scancodes@));
        assert(names.take(i + 1).drop_last() =~= names.take(i as int));
        assert(names.take(i + 1).last() == name@);
        i = i + 1;
    }
    assert(names.take(n as int) =~= names);
    let leds = led_plan(&keymap.key_leds, keys);
    let layers = layer_plan(&keymap.layers);
    Ok(KeymapImport { scancodes: sets, leds, layers })
}

/// The scancode stores of a plan that go ahead, given what the keycode
/// parser made of each planned store's scancode name (`None` where it read
/// no keycode, and for a store past the end of `parsed`): among the first
/// `n` stores, in order, those whose name was read, each as (key, layer,
/// keycode).
pub open spec fn parsed_sets(sets: Seq<(usize, usize, Seq<char>)>, parsed: Seq<Option<KeycodeView>>, n: int) -> Seq<
    (int, int, KeycodeView),
>
    decreases n,
{
    if n <= 0 {
        Seq::empty()
    } else {
        let rest = parsed_sets(sets, parsed, n - 1);
        if n - 1 < parsed.len() && parsed[n - 1] is Some {
            rest.push((sets[n - 1].0 as int, sets[n - 1].1 as int, parsed[n - 1]->0))
        } else {
            rest
        }
    }
}

/// Keycodes as views, `None` kept.
pub open spec fn opt_keycodes_view(v: Seq<Option<Keycode>>) -> Seq<Option<KeycodeView>> {
    v.map_values(|o: Option<Keycode>| match o {
        Some(k) => Some(k@),
        None => None,
    })
}

/// The scancode stores of an import plan that go ahead: a scancode name
/// that the keycode parser does not read (`None` at its place in `parsed`)
/// is skipped; see `parsed_sets`.
pub fn parsed_stores(sets: &Vec<KeymapSet>, parsed: &Vec<Option<Keycode>>) -> (v: Vec<(usize, usize, Keycode)>)
    ensures
        keycodes_view3(v@) == parsed_sets(
            sets@.map_values(|s: KeymapSet| s@),
            opt_keycodes_view(parsed@),
            sets@.len() as int,
        ),
{
    let ghost sv = sets@.map_values(|s: KeymapSet| s@);
    let ghost pv = opt_keycodes_view(parsed@);
    let mut v: Vec<(usize, usize, Keycode)> = Vec::new();
    let mut i: usize = 0;
    while i < sets.len()
        invariant
            i <= sets@.len(),
            sv == sets@.map_values(|s: KeymapSet| s@),
            pv == opt_keycodes_view(parsed@),
            keycodes_view3(v@) == parsed_sets(sv, pv, i as int),
        decreases sets@.len() - i,
    {
        if i < parsed.len() {
            match &parsed[i] {
                Some(k) => {
                    let ghost before = v@;
                    let e = (sets[i].key, sets[i].layer, k.copy_of());
                    v.push(e);
                    assert(keycodes_view3(v@) =~= keycodes_view3(before).push((sets@[i as int].key as int, sets@[i as int].layer as int, parsed@[i as int]->0@)));
                },
                None => {},
            }
        }
        i = i + 1;
    }
    v
}

fn led_plan(key_leds: &StrMap<Option<usize>>, keys: &Vec<Key>) -> (v: Vec<(usize, Option<usize>)>)
    requires
        names_known(key_leds@, keys@.map_values(|k: Key| k@)),
    ensures
        v@ == led_sets(keys@.map_values(|k: Key| k@), key_leds.key_order(), key_leds@),
{
    let ghost kv = keys@.map_values(|k: Key| k@);
    let ghost names = key_leds.key_order();
    let n = key_leds.len();
    let mut v: Vec<(usize, Option<usize>)> = Vec::new();
    let mut i: usize = 0;
    while i < n
        invariant
            kv == keys@.map_values(|k: Key| k@),
            names == key_leds.key_order(),
            n == names.len(),
            i <= n,
            names_known(key_leds@, kv),
            v@ == led_sets(kv, names, key_leds@).take(i as int),
        decreases n - i,
    {
        let (name, color) = key_leds.entry(i);
        assert(key_leds@.contains_key(name@));
        let key = find_key(keys, name);
        v.push((key, *color));
        assert(v@ =~= led_sets(kv, names, key_leds@).take(i + 1));
        i = i + 1;
    }
    assert(led_sets(kv, names, key_leds@).take(n as int) =~= led_sets(kv, names, key_leds@));
    v
}

fn layer_plan(layers: &Vec<KeyMapLayer>) -> (v: Vec<LayerSet>)
    ensures
        v@ == layer_settings(layers@),
{
    let mut v: Vec<LayerSet> = Vec::new();
    let mut i: usize = 0;
    while i < layers.len()
        invariant
            i <= layers@.len(),
            v@ == layer_settings(layers@).take(i as int),
        decreases layers@.len() - i,
    {
        let l = layers[i];
        v.push(LayerSet { layer: i, mode: l.mode, brightness: l.brightness, color: l.color });
        assert(v@ =~= layer_settings(layers@).take(i + 1));
        i = i + 1;
    }
    assert(layer_settings(layers@).take(i as int) =~= layer_settings(layers@));
    v
}


/// The scancode name the picker shows as chosen: that of the selected key on
/// the page's layer, where a key is selected, the page is a layer page and
/// the key has a scancode on that layer.
pub open spec fn picker_choice(keys: Seq<KeyView>, selected: Option<usize>, layer: Option<usize>) -> Option<Seq<char>> {
    match (selected, layer) {
        (Some(i), Some(l)) => if i < keys.len() && l < keys[i as int].scancodes.len() {
            Some(keys[i as int].scancodes[l as int].1)
        } else {
            None
        },
        _ => None,
    }
}

/// The scancode name to show as chosen in the picker, and whether the picker
/// can be used: only with a key selected on a layer page.
pub fn picker_selection(keys: &Vec<Key>, selected: Option<usize>, layer: Option<usize>) -> (r: (Option<String>, bool))
    requires
        selected matches Some(i) ==> i < keys@.len(),
    ensures
        match r.0 {
            Some(s) => picker_choice(keys@.map_values(|k: Key| k@), selected, layer) == Some(s@),
            None => picker_choice(keys@.map_values(|k: Key| k@), selected, layer) is None,
        },
        r.1 == (selected is Some && layer is Some),
{
    let ghost kv = keys@.map_values(|k: Key| k@);
    let choice = match (selected, layer) {
        (Some(i), Some(l)) => {
            assert(kv[i as int] == keys@[i as int]@);
            if l < keys[i].scancodes.len() {
                Some(keys[i].scancodes[l].1.clone())
            } else {
                None
            }
        },
        _ => None,
    };
    (choice, selected.is_some() && layer.is_some())
}

/// Whether a key's switch is down in a matrix: off where the matrix does not
/// reach the key's electrical position.
pub open spec fn switch_down(m: Matrix, k: KeyView) -> bool {
    m.cell(k.electrical.0 as int, k.electrical.1 as int) == Some(true)
}

/// Updates which keys are pressed from a matrix read from the keyboard;
/// true where any key changed.
pub fn refresh_pressed(keys: &mut Vec<Key>, matrix: &Matrix) -> (changed: bool)
    ensures
        final(keys)@.len() == old(keys)@.len(),
        forall|i: int| 0 <= i < final(keys)@.len() ==> (#[trigger] final(keys)@[i])@ == (KeyView {
            pressed: switch_down(*matrix, old(keys)@[i]@),
            ..old(keys)@[i]@
        }),
        changed == exists|i: int| 0 <= i < old(keys)@.len() && (#[trigger] old(keys)@[i]).pressed != switch_down(
            *matrix,
            old(keys)@[i]@,
        ),
{
    let ghost before = keys@;
    let mut changed = false;
    let mut i: usize = 0;
    while i < keys.len()
        invariant
            keys@.len() == before.len(),
            i <= before.len(),
            forall|j: int| 0 <= j < i ==> (#[trigger] keys@[j])@ == (KeyView {
                pressed: switch_down(*matrix, before[j]@),
                ..before[j]@
            }),
            forall|j: int| i <= j < before.len() ==> #[trigger] keys@[j] == before[j],
            changed == exists|j: int| 0 <= j < i && (#[trigger] before[j]).pressed != switch_down(*matrix, before[j]@),
        decreases before.len() - i,
    {
        let (row, col) = keys[i].electrical;
        let pressed = match matrix.get(row as usize, col as usize) {
            Some(p) => p,
            None => false,
        };
        let was = keys[i].pressed;
        if was != pressed {
            changed = true;
        }
        keys[i].pressed = pressed;
        proof {
            assert(before[i as int].pressed != switch_down(*matrix, before[i as int]@) ==> exists|j: int|
                0 <= j < i + 1 && (#[trigger] before[j]).pressed != switch_down(*matrix, before[j]@));
        }
        i = i + 1;
    }
    changed
}

/// What one poll of a keyboard's switches does first.
pub enum RefreshStep {
    /// Stop polling: the board cannot report its switches.
    Stop,
    /// Poll again later without reading: the keyboard has no window, or its
    /// window is not the active one.
    Wait,
    /// Read the switch matrix from the board.
    ReadMatrix,
}

/// The first step of a poll, from whether the board reported a matrix when
/// the view was made and whether the view's window, if it has one, is
/// active.
pub fn refresh_step(has_matrix: bool, window_active: Option<bool>) -> (s: RefreshStep)
    ensures
        !has_matrix ==> s is Stop,
        has_matrix && window_active != Some(true) ==> s is Wait,
        has_matrix && window_active == Some(true) ==> s is ReadMatrix,
{
    if !has_matrix {
        return RefreshStep::Stop;
    }
    match window_active {
        Some(true) => RefreshStep::ReadMatrix,
        _ => RefreshStep::Wait,
    }
}

/// The rest of a poll, once the matrix was read: with a matrix, the keys'
/// pressed flags follow it (see `refresh_pressed`), polling goes on, and a
/// redraw is due where a flag changed; where the read failed, the keys stay
/// as they are and polling stops. The result is (poll again, redraw).
pub fn after_matrix(keys: &mut Vec<Key>, read: Result<Matrix, String>) -> (r: (bool, bool))
    ensures
        match read {
            Ok(m) => {
                &&& final(keys)@.len() == old(keys)@.len()
                &&& forall|i: int| 0 <= i < final(keys)@.len() ==> (#[trigger] final(keys)@[i])@ == (KeyView {
                    pressed: switch_down(m, old(keys)@[i]@),
                    ..old(keys)@[i]@
                })
                &&& r.0
                &&& r.1 == exists|i: int| 0 <= i < old(keys)@.len() && (#[trigger] old(keys)@[i]).pressed
                    != switch_down(m, old(keys)@[i]@)
            },
            Err(_) => final(keys)@ == old(keys)@ && !r.0 && !r.1,
        },
{
    match read {
        Ok(m) => {
            let changed = refresh_pressed(keys, &m);
            (true, changed)
        },
        Err(_) => (false, false),
    }
}


/// The extension a saved layout file gets: `json` where the chosen file name
/// has none, the chosen one where it is `json`, and otherwise the chosen one
/// followed by `.json`.
pub open spec fn saved_extension(ext: Option<Seq<char>>) -> Seq<char> {
    match ext {
        None => "json"@,
        Some(e) => if e == "json"@ {
            e
        } else {
            e + ".json"@
        },
    }
}

/// The extension to give a layout file saved under a name with extension
/// `ext`, if it has one.
pub fn save_extension(ext: Option<&str>) -> (r: String)
    ensures
        r@ == saved_extension(
            match ext {
                Some(e) => Some(e@),
                None => None,
            },
        ),
{
    match ext {
        None => String::from_str("json"),
        Some(e) => {
            if str_eq(e, "json") {
                String::from_str(e)
            } else {
                let mut r = String::from_str(e);
                r.append(".json");
                r
            }
        },
    }
}

} // verus!
