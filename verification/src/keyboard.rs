//! The keyboard view's decisions that do not depend on its widgets: which
//! tabs it has, which description its LED tab shows, when its layers take
//! clicks, which keycodes the picker shows as chosen, and what swapping the
//! function keys' layers stores.

use vstd::prelude::*;

use crate::keycode::{Keycode, KeycodeView, Mods};
use crate::page::strings_view;
use crate::text::str_eq;

verus! {

/// The tabs of a keyboard view, by name, in order: the test tab where a
/// test was asked for, the keymap tab, and the LED tab for a keyboard with
/// adjustable brightness.
pub open spec fn tab_names(launch_test: bool, has_brightness: bool) -> Seq<Seq<char>> {
    (if launch_test { seq!["testing"@] } else { seq![] }) + seq!["keymap"@] + (if has_brightness {
        seq!["leds"@]
    } else {
        seq![]
    })
}

/// The tabs of a keyboard view; see `tab_names`.
pub fn keyboard_tabs(launch_test: bool, has_brightness: bool) -> (v: Vec<&'static str>)
    ensures
        v@.map_values(|s: &str| s@) == tab_names(launch_test, has_brightness),
{
    let mut v: Vec<&'static str> = Vec::new();
    if launch_test {
        v.push("testing");
    }
    v.push("keymap");
    if has_brightness {
        v.push("leds");
    }
    assert(v@.map_values(|s: &str| s@) =~= tab_names(launch_test, has_brightness));
    v
}

/// Whether the action that swaps the function keys' layers is enabled: it
/// is, unless the layout says the keyboard has no Fn/F swap.
pub fn invert_f_enabled(no_fn_f: bool) -> (b: bool)
    ensures
        b == !no_fn_f,
{
    !no_fn_f
}

/// The message that describes the LED tab: one for keyboards with lighting
/// per layer, another for built-in keyboards.
pub fn leds_description_id(has_per_layer: bool) -> (id: &'static str)
    ensures
        id@ == (if has_per_layer { "stack-leds-desc"@ } else { "stack-leds-desc-builtin"@ }),
{
    if has_per_layer {
        "stack-leds-desc"
    } else {
        "stack-leds-desc-builtin"
    }
}

/// Whether the layers take clicks that select keys: on the keymap tab, and
/// on the LED tab where lighting is set key by key.
pub open spec fn selectable_on(tab: Option<Seq<char>>, is_per_key: bool) -> bool {
    tab == Some("keymap"@) || (tab == Some("leds"@) && is_per_key)
}

/// Whether the layers take clicks on tab `tab`; see `selectable_on`.
pub fn layers_selectable(tab: Option<&str>, is_per_key: bool) -> (b: bool)
    ensures
        b == selectable_on(
            match tab {
                Some(t) => Some(t@),
                None => None,
            },
            is_per_key,
        ),
{
    match tab {
        Some(t) => str_eq(t, "keymap") || (str_eq(t, "leds") && is_per_key),
        None => false,
    }
}

/// Whether the picker can be used: only with keys selected on a layer page.
pub fn picker_sensitive(selected_count: usize, layer: Option<usize>) -> (b: bool)
    ensures
        b == (selected_count > 0 && layer is Some),
{
    selected_count > 0 && layer.is_some()
}


/// The keycode on layer `layer` of a key whose layers hold `scancodes`
/// (each the raw scancode and the keycode it decodes to), where it has that
/// layer and the scancode decodes to a keycode.
pub open spec fn keycode_on(scancodes: Seq<(u16, Option<Keycode>)>, layer: usize) -> Option<KeycodeView> {
    if layer < scancodes.len() {
        match scancodes[layer as int].1 {
            Some(k) => Some(k@),
            None => None,
        }
    } else {
        None
    }
}

/// The keycodes of the first `n` selected keys, in the order given, on the
/// current layer: nothing on a page that is not a layer, and nothing for a
/// key without a keycode there.
pub open spec fn selected_keycodes(
    keys: Seq<Vec<(u16, Option<Keycode>)>>,
    selected: Seq<usize>,
    layer: Option<usize>,
    n: int,
) -> Seq<KeycodeView>
    decreases n,
{
    if n <= 0 {
        Seq::empty()
    } else {
        let rest = selected_keycodes(keys, selected, layer, n - 1);
        match layer {
            Some(l) => match keycode_on(keys[selected[n - 1] as int]@, l) {
                Some(k) => rest.push(k),
                None => rest,
            },
            None => rest,
        }
    }
}

/// The keycodes the picker shows as chosen for the selected keys, listed in
/// `selected`, whose layers hold `keys[i]`.
pub fn selected_scancodes(keys: &Vec<Vec<(u16, Option<Keycode>)>>, selected: &Vec<usize>, layer: Option<usize>) -> (v: Vec<Keycode>)
    requires
        forall|i: int| 0 <= i < selected@.len() ==> #[trigger] selected@[i] < keys@.len(),
    ensures
        v@.map_values(|k: Keycode| k@) == selected_keycodes(keys@, selected@, layer, selected@.len() as int),
{
    let mut v: Vec<Keycode> = Vec::new();
    let mut i: usize = 0;
    while i < selected.len()
        invariant
            i <= selected@.len(),
            forall|j: int| 0 <= j < selected@.len() ==> #[trigger] selected@[j] < keys@.len(),
            v@.map_values(|k: Keycode| k@) == selected_keycodes(keys@, selected@, layer, i as int),
        decreases selected@.len() - i,
    {
        let key = selected[i];
        assert(selected@[i as int] < keys@.len());
        if let Some(l) = layer {
            let scancodes = &keys[key];
            if l < scancodes.len() {
                if let Some(k) = &scancodes[l].1 {
                    let ghost prev = v@;
                    v.push(k.copy_of());
                    assert(v@.map_values(|k: Keycode| k@) =~= prev.map_values(|k: Keycode| k@).push(k@));
                }
            }
        }
        i = i + 1;
    }
    v
}


/// The keycode that stands for no key.
pub open spec fn none_keycode() -> KeycodeView {
    KeycodeView::Basic(Mods { ctrl: false, shift: false, alt: false, super_key: false, right: false }, "NONE"@)
}

/// The plain `ROLL_OVER` key, which the function-key swap leaves alone.
pub open spec fn is_roll_over(k: KeycodeView) -> bool {
    k == KeycodeView::Basic(Mods { ctrl: false, shift: false, alt: false, super_key: false, right: false }, "ROLL_OVER"@)
}

/// The keycode on layer `l` of a key, the no-key keycode where there is none.
pub open spec fn keycode_or_none(scancodes: Seq<(u16, Option<Keycode>)>, l: int) -> KeycodeView {
    match keycode_on(scancodes, l as usize) {
        Some(k) => k,
        None => none_keycode(),
    }
}

/// The keycode of every key on every layer, the no-key keycode where the
/// scancode decodes to none.
pub open spec fn keycodes_of(keys: Seq<Vec<(u16, Option<Keycode>)>>) -> Seq<Seq<KeycodeView>> {
    Seq::new(keys.len(), |n: int| Seq::new(keys[n]@.len(), |l: int| keycode_or_none(keys[n]@, l)))
}

/// `i` is the last position of `name` in `names`.
pub open spec fn is_last_named(names: Seq<Seq<char>>, name: Seq<char>, i: int) -> bool {
    &&& 0 <= i < names.len()
    &&& names[i] == name
    &&& forall|j: int| i < j < names.len() ==> names[j] != name
}

/// The last position of `name` in `names`.
pub open spec fn last_named(names: Seq<Seq<char>>, name: Seq<char>) -> int {
    choose|i: int| is_last_named(names, name, i)
}

/// What the function-key swap stores, given each key's keycodes `t`, the
/// keys' logical names and the names of the function keys: for each
/// function key in order, unless its second layer holds the roll-over key,
/// its second layer's keycode on the first layer and its first layer's on
/// the second.
pub open spec fn swap_plan(t: Seq<Seq<KeycodeView>>, names: Seq<Seq<char>>, fnames: Seq<Seq<char>>) -> Seq<
    (int, int, KeycodeView),
>
    decreases fnames.len(),
{
    if fnames.len() == 0 {
        Seq::empty()
    } else {
        let rest = swap_plan(t, names, fnames.drop_last());
        let n = last_named(names, fnames.last());
        if is_roll_over(t[n][1]) {
            rest
        } else {
            rest + seq![(n, 0int, t[n][1]), (n, 1int, t[n][0])]
        }
    }
}

/// The keycodes after storing `sets` in order, each (key, layer, keycode).
pub open spec fn stored(t: Seq<Seq<KeycodeView>>, sets: Seq<(int, int, KeycodeView)>) -> Seq<Seq<KeycodeView>>
    decreases sets.len(),
{
    if sets.len() == 0 {
        t
    } else {
        let p = stored(t, sets.drop_last());
        let (n, l, k) = sets.last();
        if 0 <= n < p.len() && 0 <= l < p[n].len() {
            p.update(n, p[n].update(l, k))
        } else {
            p
        }
    }
}

/// Every function key names a key of the board with at least two layers.
pub open spec fn f_keys_found(names: Seq<Seq<char>>, fnames: Seq<Seq<char>>, t: Seq<Seq<KeycodeView>>) -> bool {
    forall|i: int|
        0 <= i < fnames.len() ==> (exists|j: int| 0 <= j < names.len() && names[j] == #[trigger] fnames[i])
            && t[last_named(names, fnames[i])].len() >= 2
}

/// Stores of keycodes as (key, layer, keycode) views.
pub open spec fn keycodes_view3(v: Seq<(usize, usize, Keycode)>) -> Seq<(int, int, KeycodeView)> {
    v.map_values(|s: (usize, usize, Keycode)| (s.0 as int, s.1 as int, s.2@))
}

fn last_key_named(names: &Vec<String>, name: &String) -> (r: usize)
    requires
        exists|j: int| 0 <= j < names@.len() && names@[j]@ == name@,
    ensures
        is_last_named(strings_view(names@), name@, r as int),
        r as int == last_named(strings_view(names@), name@),
{
    let ghost nv = strings_view(names@);
    let mut found: usize = 0;
    let mut any = false;
    let mut i: usize = 0;
    while i < names.len()
        invariant
            nv == strings_view(names@),
            i <= names@.len(),
            any ==> found < i && nv[found as int] == name@ && forall|j: int| found < j < i ==> nv[j] != name@,
            !any ==> forall|j: int| 0 <= j < i ==> nv[j] != name@,
        decreases names@.len() - i,
    {
        if names[i] == *name {
            found = i;
            any = true;
        }
        i = i + 1;
    }
    proof {
        if !any {
            let w = choose|j: int| 0 <= j < names@.len() && names@[j]@ == name@;
            assert(nv[w] == name@);
        }
        assert(is_last_named(nv, name@, found as int));
        assert forall|k: int| is_last_named(nv, name@, k) implies k == found by {
            if k < found {
                assert(nv[found as int] == name@);
            }
            if k > found {
                assert(nv[k] == name@);
            }
        }
    }
    found
}

fn keycode_or_none_of(scancodes: &Vec<(u16, Option<Keycode>)>, l: usize) -> (k: Keycode)
    ensures
        k@ == keycode_or_none(scancodes@, l as int),
{
    if l < scancodes.len() {
        match &scancodes[l].1 {
            Some(k) => k.copy_of(),
            None => Keycode::Basic(Mods::empty(), "NONE".to_owned()),
        }
    } else {
        Keycode::Basic(Mods::empty(), "NONE".to_owned())
    }
}

fn roll_over(k: &Keycode) -> (b: bool)
    ensures
        b == is_roll_over(k@),
{
    match k {
        Keycode::Basic(m, name) => m.is_empty() && str_eq(name.as_str(), "ROLL_OVER"),
        _ => false,
    }
}

/// What swapping the first two layers of the function keys stores; see
/// `swap_plan`. `names` are the logical names of the keys whose layers hold
/// `keys`, and `f_keys` the logical names of the function keys.
pub fn invert_f_keys(f_keys: &Vec<String>, names: &Vec<String>, keys: &Vec<Vec<(u16, Option<Keycode>)>>) -> (v: Vec<(usize, usize, Keycode)>)
    requires
        names@.len() == keys@.len(),
        f_keys_found(strings_view(names@), strings_view(f_keys@), keycodes_of(keys@)),
    ensures
        keycodes_view3(v@) == swap_plan(keycodes_of(keys@), strings_view(names@), strings_view(f_keys@)),
{
    let ghost t = keycodes_of(keys@);
    let ghost nv = strings_view(names@);
    let ghost fv = strings_view(f_keys@);
    let mut v: Vec<(usize, usize, Keycode)> = Vec::new();
    let mut i: usize = 0;
    assert(fv.take(0) =~= Seq::<Seq<char>>::empty());
    while i < f_keys.len()
        invariant
            t == keycodes_of(keys@),
            nv == strings_view(names@),
            fv == strings_view(f_keys@),
            names@.len() == keys@.len(),
            f_keys_found(nv, fv, t),
            i <= fv.len(),
            keycodes_view3(v@) == swap_plan(t, nv, fv.take(i as int)),
        decreases fv.len() - i,
    {
        assert(fv[i as int] == f_keys@[i as int]@);
        assert(exists|j: int| 0 <= j < nv.len() && nv[j] == fv[i as int]);
        proof {
            let j = choose|j: int| 0 <= j < nv.len() && nv[j] == fv[i as int];
            assert(names@[j]@ == f_keys@[i as int]@);
        }
        let n = last_key_named(names, &f_keys[i]);
        assert(t[n as int].len() >= 2);
        let layer0 = keycode_or_none_of(&keys[n], 0);
        let layer1 = keycode_or_none_of(&keys[n], 1);
        assert(layer0@ == t[n as int][0]);
        assert(layer1@ == t[n as int][1]);
        assert(fv.take(i + 1).drop_last() =~= fv.take(i as int));
        assert(fv.take(i + 1).last() == fv[i as int]);
        if !roll_over(&layer1) {
            let ghost prev = keycodes_view3(v@);
            v.push((n, 0, layer1));
            v.push((n, 1, layer0));
            assert(keycodes_view3(v@) =~= prev + seq![(n as int, 0int, t[n as int][1]), (n as int, 1int, t[n as int][0])]);
        }
        i = i + 1;
    }
    assert(fv.take(i as int) =~= fv);
    v
}

/// A key's first two layers swapped.
pub open spec fn swap_row(r: Seq<KeycodeView>) -> Seq<KeycodeView> {
    r.update(0, r[1]).update(1, r[0])
}

/// The keycodes with the first two layers of the keys in `f` swapped.
pub open spec fn swapped(t: Seq<Seq<KeycodeView>>, f: Set<int>) -> Seq<Seq<KeycodeView>> {
    Seq::new(t.len(), |n: int| if f.contains(n) { swap_row(t[n]) } else { t[n] })
}

/// The keys that the first `m` function keys name.
pub open spec fn f_targets(names: Seq<Seq<char>>, fnames: Seq<Seq<char>>, m: int) -> Set<int> {
    Set::new(|n: int| exists|i: int| 0 <= i < m && n == last_named(names, #[trigger] fnames[i]))
}

/// Every function key names a key with two layers, neither holding the
/// roll-over key.
pub open spec fn f_keys_swappable(t: Seq<Seq<KeycodeView>>, names: Seq<Seq<char>>, fnames: Seq<Seq<char>>) -> bool {
    &&& names.len() == t.len()
    &&& forall|i: int|
        0 <= i < fnames.len() ==> (exists|j: int| 0 <= j < names.len() && names[j] == #[trigger] fnames[i])
    &&& forall|i: int|
        0 <= i < fnames.len() ==> t[#[trigger] last_named(names, fnames[i])].len() >= 2
            && !is_roll_over(t[last_named(names, fnames[i])][0]) && !is_roll_over(t[last_named(names, fnames[i])][1])
}

proof fn lemma_last_named_in_range(names: Seq<Seq<char>>, name: Seq<char>)
    requires
        exists|j: int| 0 <= j < names.len() && names[j] == name,
    ensures
        is_last_named(names, name, last_named(names, name)),
{
    let j = choose|j: int| 0 <= j < names.len() && names[j] == name;
    lemma_largest_position(names, name, j);
}

proof fn lemma_largest_position(names: Seq<Seq<char>>, name: Seq<char>, j: int)
    requires
        0 <= j < names.len(),
        names[j] == name,
    ensures
        exists|i: int| is_last_named(names, name, i),
    decreases names.len() - j,
{
    if exists|k: int| j < k < names.len() && names[k] == name {
        let k = choose|k: int| j < k < names.len() && names[k] == name;
        lemma_largest_position(names, name, k);
    } else {
        assert(is_last_named(names, name, j));
    }
}

proof fn lemma_plan_swaps(t: Seq<Seq<KeycodeView>>, names: Seq<Seq<char>>, fnames: Seq<Seq<char>>, m: int)
    requires
        f_keys_swappable(t, names, fnames),
        0 <= m <= fnames.len(),
    ensures
        stored(t, swap_plan(t, names, fnames.take(m))) =~~= swapped(t, f_targets(names, fnames, m)),
    decreases m,
{
    if m == 0 {
        assert(fnames.take(0) =~= Seq::<Seq<char>>::empty());
        assert(swapped(t, f_targets(names, fnames, 0)) =~~= t);
    } else {
        lemma_plan_swaps(t, names, fnames, m - 1);
        let fm = fnames.take(m);
        assert(fm.drop_last() =~= fnames.take(m - 1));
        assert(fm.last() == fnames[m - 1]);
        lemma_last_named_in_range(names, fnames[m - 1]);
        let n = last_named(names, fnames[m - 1]);
        assert(t[n].len() >= 2 && !is_roll_over(t[n][1]));
        let rest = swap_plan(t, names, fnames.take(m - 1));
        let a = (n, 0int, t[n][1]);
        let b = (n, 1int, t[n][0]);
        let plan = rest + seq![a, b];
        assert(swap_plan(t, names, fm) == plan);
        assert(plan.drop_last() =~= rest.push(a));
        assert(plan.drop_last().drop_last() =~= rest);
        let p0 = swapped(t, f_targets(names, fnames, m - 1));
        assert(stored(t, rest) =~~= p0);
        assert(n < p0.len() && p0[n].len() >= 2);
        let p1 = p0.update(n, p0[n].update(0, t[n][1]));
        assert(stored(t, rest.push(a)) == p1);
        let p2 = p1.update(n, p1[n].update(1, t[n][0]));
        assert(stored(t, plan) == p2);
        assert(p1[n].update(1, t[n][0]) =~= swap_row(t[n]));
        assert(f_targets(names, fnames, m) =~= f_targets(names, fnames, m - 1).insert(n)) by {
            assert forall|x: int| f_targets(names, fnames, m).contains(x) implies f_targets(names, fnames, m - 1).insert(
                n,
            ).contains(x) by {
                let i = choose|i: int| 0 <= i < m && x == last_named(names, #[trigger] fnames[i]);
                if i < m - 1 {
                    assert(f_targets(names, fnames, m - 1).contains(x));
                }
            }
            assert forall|x: int| f_targets(names, fnames, m - 1).insert(n).contains(x) implies f_targets(
                names,
                fnames,
                m,
            ).contains(x) by {
                if x == n {
                    assert(x == last_named(names, fnames[m - 1]));
                } else {
                    let i = choose|i: int| 0 <= i < m - 1 && x == last_named(names, #[trigger] fnames[i]);
                    assert(x == last_named(names, fnames[i]));
                }
            }
        }
        assert(p2 =~~= swapped(t, f_targets(names, fnames, m)));
    }
}

/// Swapping the first two layers of the function keys twice gives back
/// every key's keycodes, where each function key names a key with two
/// layers and neither of them holds the roll-over key.
pub proof fn lemma_invert_f_keys_twice(t: Seq<Seq<KeycodeView>>, names: Seq<Seq<char>>, fnames: Seq<Seq<char>>)
    requires
        f_keys_swappable(t, names, fnames),
    ensures
        ({
            let once = stored(t, swap_plan(t, names, fnames));
            stored(once, swap_plan(once, names, fnames)) == t
        }),
{
    let f = f_targets(names, fnames, fnames.len() as int);
    assert(fnames.take(fnames.len() as int) =~= fnames);
    lemma_plan_swaps(t, names, fnames, fnames.len() as int);
    let once = stored(t, swap_plan(t, names, fnames));
    assert(once =~~= swapped(t, f));
    assert(f_keys_swappable(once, names, fnames)) by {
        assert forall|i: int| 0 <= i < fnames.len() implies once[#[trigger] last_named(names, fnames[i])].len() >= 2
            && !is_roll_over(once[last_named(names, fnames[i])][0]) && !is_roll_over(
            once[last_named(names, fnames[i])][1],
        ) by {
            assert(exists|j: int| 0 <= j < names.len() && names[j] == fnames[i]);
            lemma_last_named_in_range(names, fnames[i]);
            let n = last_named(names, fnames[i]);
            assert(t[n].len() >= 2);
            assert(f.contains(n));
            assert(once[n] == swap_row(t[n]));
        }
    }
    lemma_plan_swaps(once, names, fnames, fnames.len() as int);
    let twice = stored(once, swap_plan(once, names, fnames));
    assert(twice =~~= swapped(once, f));
    assert forall|n: int| 0 <= n < t.len() implies #[trigger] swapped(once, f)[n] =~= t[n] by {
        if f.contains(n) {
            let i = choose|i: int| 0 <= i < fnames.len() && n == last_named(names, #[trigger] fnames[i]);
            assert(t[last_named(names, fnames[i])].len() >= 2);
            assert(once[n] == swap_row(t[n]));
        }
    }
    assert(swapped(once, f) =~~= t);
}

} // verus!
