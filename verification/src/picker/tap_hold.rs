//! The tap-hold chooser: what a key does when held (modifiers or a layer) and
//! when tapped (a basic key), which choices are open, and the keycode the
//! choice makes.

use vstd::prelude::*;
use vstd::string::StrSliceExecFns;

use crate::keycode::{Keycode, KeycodeView, Mods, mods_of_name};
use crate::page::{layer_key_names, layer_keys};
use crate::text::{starts_with, str_starts_with};

verus! {

/// What a key does when held.
#[derive(Clone, Copy, Debug, PartialEq, Eq, Structural)]
pub enum Hold {
    Mods(Mods),
    Layer(u8),
}

/// The modifier keys offered for holding, in the order shown.
pub open spec fn modifier_keys() -> Seq<Seq<char>> {
    seq![
        "LEFT_SHIFT"@,
        "LEFT_CTRL"@,
        "LEFT_SUPER"@,
        "LEFT_ALT"@,
        "RIGHT_SHIFT"@,
        "RIGHT_CTRL"@,
        "RIGHT_SUPER"@,
        "RIGHT_ALT"@,
    ]
}

/// The modifier keys offered for holding; see `modifier_keys`.
pub fn modifier_key_names() -> (v: Vec<&'static str>)
    ensures
        v@.map_values(|s: &str| s@) == modifier_keys(),
{
    let v = vec![
        "LEFT_SHIFT",
        "LEFT_CTRL",
        "LEFT_SUPER",
        "LEFT_ALT",
        "RIGHT_SHIFT",
        "RIGHT_CTRL",
        "RIGHT_SUPER",
        "RIGHT_ALT",
    ];
    assert(v@.map_values(|s: &str| s@) =~= modifier_keys());
    v
}

/// The state of the chooser: whether Shift is down, the hold action, and the
/// tap key chosen, if any.
pub struct TapHold {
    pub shift: bool,
    pub hold: Hold,
    pub keycode: Option<String>,
}

/// An optional string as characters.
pub open spec fn opt_string_view(o: Option<String>) -> Option<Seq<char>> {
    match o {
        Some(s) => Some(s@),
        None => None,
    }
}

/// No modifiers.
pub open spec fn no_mods() -> Mods {
    Mods { ctrl: false, shift: false, alt: false, super_key: false, right: false }
}

/// The keycode the choice makes, if it makes one: mod-tap where modifiers are
/// held, layer-tap where a layer is; the tap key is `NONE` until one is chosen.
pub open spec fn chosen_keycode(hold: Hold, keycode: Option<Seq<char>>) -> Option<KeycodeView> {
    let k = match keycode {
        Some(k) => k,
        None => "NONE"@,
    };
    match hold {
        Hold::Mods(m) => if m.spec_is_empty() {
            None
        } else {
            Some(KeycodeView::MT(m, k))
        },
        Hold::Layer(l) => Some(KeycodeView::LT(l, k)),
    }
}

/// The hold action, layer and tap key that one selected keycode shows; none
/// for a plain key or for any other number of selected keycodes.
pub open spec fn shown_choice(selected: Seq<KeycodeView>) -> (Mods, Option<u8>, Option<Seq<char>>) {
    if selected.len() == 1 {
        match selected[0] {
            KeycodeView::MT(m, k) => (m, None, Some(k)),
            KeycodeView::LT(l, k) => (no_mods(), Some(l), Some(k)),
            KeycodeView::Basic(..) => (no_mods(), None, None),
        }
    } else {
        (no_mods(), None, None)
    }
}

/// The modifier keys to mark as selected for held modifiers `m`: each one
/// whose modifiers `m` has, on the same side as `m`.
pub open spec fn held_modifier_keys(m: Mods, n: int) -> Seq<KeycodeView>
    decreases n,
{
    if n <= 0 {
        seq![]
    } else {
        let prev = held_modifier_keys(m, n - 1);
        let mk = mods_of_name(modifier_keys()[n - 1]).unwrap();
        if m.spec_contains(mk) && m.right == mk.right {
            prev.push(KeycodeView::Basic(mk, "NONE"@))
        } else {
            prev
        }
    }
}

proof fn lemma_modifier_keys_named(i: int)
    requires
        0 <= i < 8,
    ensures
        mods_of_name(modifier_keys()[i]) is Some,
{
    let k = modifier_keys();
    if i == 0 {
        assert(k[0] == "LEFT_SHIFT"@);
    } else if i == 1 {
        assert(k[1] == "LEFT_CTRL"@);
    } else if i == 2 {
        assert(k[2] == "LEFT_SUPER"@);
    } else if i == 3 {
        assert(k[3] == "LEFT_ALT"@);
    } else if i == 4 {
        assert(k[4] == "RIGHT_SHIFT"@);
    } else if i == 5 {
        assert(k[5] == "RIGHT_CTRL"@);
    } else if i == 6 {
        assert(k[6] == "RIGHT_SUPER"@);
    } else {
        assert(k[7] == "RIGHT_ALT"@);
    }
}

/// Keycodes as their views.
pub open spec fn keycodes_view(v: Seq<Keycode>) -> Seq<KeycodeView> {
    v.map_values(|k: Keycode| k@)
}

/// Whether a key of the hold group can be chosen: a modifier key can, unless
/// Shift is down and either a layer is held or modifiers of the other side
/// are; a layer key can unless Shift is down and something is held.
pub open spec fn hold_key_open(shift: bool, hold: Hold, name: Seq<char>) -> bool {
    let left = starts_with(name, "LEFT_"@);
    let right = starts_with(name, "RIGHT_"@);
    if left || right {
        if shift {
            match hold {
                Hold::Mods(m) => m.spec_is_empty() || (right == m.right),
                Hold::Layer(_) => false,
            }
        } else {
            true
        }
    } else {
        !shift || hold == Hold::Mods(no_mods())
    }
}

/// Whether a tap key can be chosen: only once something is held, and with
/// Shift down only while no tap key is chosen yet.
pub open spec fn tap_keys_open(shift: bool, hold: Hold, keycode: Option<Seq<char>>) -> bool {
    let hold_empty = hold == Hold::Mods(no_mods());
    if shift {
        !hold_empty && keycode is None
    } else {
        !hold_empty
    }
}

impl TapHold {
    /// The chooser before any choice: no Shift, no hold action, no tap key.
    pub fn new() -> (t: Self)
        ensures
            !t.shift,
            t.hold == Hold::Mods(no_mods()),
            t.keycode is None,
    {
        TapHold { shift: false, hold: Hold::Mods(Mods::empty()), keycode: None }
    }

    /// The keycode the current choice makes, if any.
    pub fn update(&self) -> (k: Option<Keycode>)
        ensures
            match k {
                Some(k) => chosen_keycode(self.hold, opt_string_view(self.keycode)) == Some(k@),
                None => chosen_keycode(self.hold, opt_string_view(self.keycode)) is None,
            },
    {
        let keycode = match &self.keycode {
            Some(k) => k.clone(),
            None => "NONE".to_owned(),
        };
        match self.hold {
            Hold::Mods(mods) => {
                if !mods.is_empty() {
                    Some(Keycode::MT(mods, keycode))
                } else {
                    None
                }
            },
            Hold::Layer(layer) => Some(Keycode::LT(layer, keycode)),
        }
    }

    /// Chooses `name` as the tap key and gives the keycode that makes.
    pub fn tap_key_pressed(&mut self, name: String) -> (k: Option<Keycode>)
        ensures
            final(self).shift == old(self).shift,
            final(self).hold == old(self).hold,
            opt_string_view(final(self).keycode) == Some(name@),
            match k {
                Some(k) => chosen_keycode(old(self).hold, Some(name@)) == Some(k@),
                None => chosen_keycode(old(self).hold, Some(name@)) is None,
            },
    {
        self.keycode = Some(name);
        self.update()
    }

    /// Shows the selected keycodes: returns the keys to mark in the hold
    /// group and in the tap group, and takes the hold action and tap key
    /// that a single mod-tap or layer-tap keycode has.
    pub fn set_selected(&mut self, scancode_names: Vec<Keycode>) -> (r: (Vec<Keycode>, Vec<Keycode>))
        requires
            shown_choice(keycodes_view(scancode_names@)).1 matches Some(l) ==> l < 4,
        ensures
            ({
                let (m, layer, k) = shown_choice(keycodes_view(scancode_names@));
                &&& keycodes_view(r.0@) == held_modifier_keys(m, 8) + match layer {
                    Some(l) => seq![KeycodeView::Basic(no_mods(), layer_keys()[l as int])],
                    None => seq![],
                }
                &&& keycodes_view(r.1@) == match k {
                    Some(k) => seq![KeycodeView::Basic(no_mods(), k)],
                    None => seq![],
                }
                &&& final(self).hold == match layer {
                    Some(l) => Hold::Layer(l),
                    None => Hold::Mods(m),
                }
                &&& opt_string_view(final(self).keycode) == k
                &&& final(self).shift == old(self).shift
            }),
    {
        let ghost sv = keycodes_view(scancode_names@);
        let mut mods = Mods::empty();
        let mut layer: Option<u8> = None;
        let mut keycode: Option<String> = None;
        if scancode_names.len() == 1 {
            assert(sv[0] == scancode_names@[0]@);
            match &scancode_names[0] {
                Keycode::MT(m, k) => {
                    mods = *m;
                    keycode = Some(k.clone());
                },
                Keycode::LT(l, k) => {
                    layer = Some(*l);
                    keycode = Some(k.clone());
                },
                Keycode::Basic(..) => {},
            }
        }
        assert(mods == shown_choice(sv).0 && layer == shown_choice(sv).1 && opt_string_view(keycode) == shown_choice(sv).2);
        let names = modifier_key_names();
        assert(names@.map_values(|s: &str| s@).len() == names@.len());
        assert(names@.len() == 8);
        let mut selected_hold: Vec<Keycode> = Vec::new();
        let mut i: usize = 0;
        while i < names.len()
            invariant
                names@.map_values(|s: &str| s@) == modifier_keys(),
                names@.len() == 8,
                i <= names@.len(),
                keycodes_view(selected_hold@) == held_modifier_keys(mods, i as int),
            decreases names@.len() - i,
        {
            assert(names@[i as int]@ == modifier_keys()[i as int]);
            proof {
                lemma_modifier_keys_named(i as int);
            }
            let mod_ = Mods::from_mod_str(names[i]).unwrap();
            let ghost before = selected_hold@;
            if mods.contains(mod_) && (mods.contains(Mods::right()) == mod_.contains(Mods::right())) {
                selected_hold.push(Keycode::Basic(mod_, "NONE".to_owned()));
                assert(keycodes_view(selected_hold@) =~= keycodes_view(before).push(KeycodeView::Basic(mod_, "NONE"@)));
            }
            i = i + 1;
        }
        if let Some(l) = layer {
            let layers = layer_key_names();
            assert(layers@.map_values(|s: &str| s@).len() == layers@.len());
            let ghost before = selected_hold@;
            let id = layers[l as usize].to_owned();
            assert(id@ == layer_keys()[l as int]);
            selected_hold.push(Keycode::Basic(Mods::empty(), id));
            assert(keycodes_view(selected_hold@) =~= keycodes_view(before).push(KeycodeView::Basic(no_mods(), layer_keys()[l as int])));
        } else {
            assert(keycodes_view(selected_hold@) =~= keycodes_view(selected_hold@) + Seq::<KeycodeView>::empty());
        }
        let mut selected_tap: Vec<Keycode> = Vec::new();
        if let Some(k) = &keycode {
            selected_tap.push(Keycode::Basic(Mods::empty(), k.clone()));
            assert(keycodes_view(selected_tap@) =~= seq![KeycodeView::Basic(no_mods(), k@)]);
        } else {
            assert(keycodes_view(selected_tap@) =~= Seq::<KeycodeView>::empty());
        }
        self.hold = match layer {
            Some(l) => Hold::Layer(l),
            None => Hold::Mods(mods),
        };
        self.keycode = keycode;
        (selected_hold, selected_tap)
    }

    /// Records whether Shift is down.
    pub fn set_shift(&mut self, shift: bool)
        ensures
            final(self).shift == shift,
            final(self).hold == old(self).hold,
            final(self).keycode == old(self).keycode,
    {
        self.shift = shift;
    }

    /// Whether the hold group's key `name` can be chosen now.
    pub fn hold_key_sensitive(&self, name: &str) -> (b: bool)
        ensures
            b == hold_key_open(self.shift, self.hold, name@),
    {
        let left_mod = str_starts_with(name, "LEFT_");
        let right_mod = str_starts_with(name, "RIGHT_");
        if left_mod || right_mod {
            if self.shift {
                match self.hold {
                    Hold::Mods(mods) => mods.is_empty() || (right_mod == mods.contains(Mods::right())),
                    Hold::Layer(_) => false,
                }
            } else {
                true
            }
        } else {
            !self.shift || self.hold == Hold::Mods(Mods::empty())
        }
    }

    /// Whether the tap keys can be chosen now.
    pub fn tap_keys_sensitive(&self) -> (b: bool)
        ensures
            b == tap_keys_open(self.shift, self.hold, opt_string_view(self.keycode)),
    {
        let hold_empty = self.hold == Hold::Mods(Mods::empty());
        if self.shift {
            !hold_empty && self.keycode.is_none()
        } else {
            !hold_empty
        }
    }
}

} // verus!
