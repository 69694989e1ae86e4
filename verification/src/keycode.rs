//! Keycodes as the keymap stores them: a plain key with modifiers, a key that
//! acts as modifiers when held (mod-tap), or one that switches layer when
//! held (layer-tap).

use vstd::prelude::*;

use crate::text::str_eq;

verus! {

/// Modifier keys: any of Ctrl, Shift, Alt and Super, and whether they are the
/// right-hand ones.
#[derive(Clone, Copy, Debug, PartialEq, Eq, Hash, Structural)]
pub struct Mods {
    pub ctrl: bool,
    pub shift: bool,
    pub alt: bool,
    pub super_key: bool,
    pub right: bool,
}

impl Mods {
    /// No modifier at all.
    pub open spec fn spec_is_empty(self) -> bool {
        !self.ctrl && !self.shift && !self.alt && !self.super_key && !self.right
    }

    /// Every modifier of `other` is in `self`.
    pub open spec fn spec_contains(self, other: Mods) -> bool {
        &&& other.ctrl ==> self.ctrl
        &&& other.shift ==> self.shift
        &&& other.alt ==> self.alt
        &&& other.super_key ==> self.super_key
        &&& other.right ==> self.right
    }

    /// No modifiers.
    pub fn empty() -> (m: Self)
        ensures
            m.spec_is_empty(),
    {
        Mods { ctrl: false, shift: false, alt: false, super_key: false, right: false }
    }

    /// Ctrl alone.
    pub fn ctrl() -> (m: Self)
        ensures
            m == (Mods { ctrl: true, shift: false, alt: false, super_key: false, right: false }),
    {
        Mods { ctrl: true, ..Self::empty() }
    }

    /// Shift alone.
    pub fn shift() -> (m: Self)
        ensures
            m == (Mods { ctrl: false, shift: true, alt: false, super_key: false, right: false }),
    {
        Mods { shift: true, ..Self::empty() }
    }

    /// Alt alone.
    pub fn alt() -> (m: Self)
        ensures
            m == (Mods { ctrl: false, shift: false, alt: true, super_key: false, right: false }),
    {
        Mods { alt: true, ..Self::empty() }
    }

    /// Super alone.
    pub fn super_() -> (m: Self)
        ensures
            m == (Mods { ctrl: false, shift: false, alt: false, super_key: true, right: false }),
    {
        Mods { super_key: true, ..Self::empty() }
    }

    /// The flag that makes modifiers the right-hand ones.
    pub fn right() -> (m: Self)
        ensures
            m == (Mods { ctrl: false, shift: false, alt: false, super_key: false, right: true }),
    {
        Mods { right: true, ..Self::empty() }
    }

    /// Whether there is no modifier at all.
    pub fn is_empty(&self) -> (b: bool)
        ensures
            b == self.spec_is_empty(),
    {
        !self.ctrl && !self.shift && !self.alt && !self.super_key && !self.right
    }

    /// Whether every modifier of `other` is in `self`.
    pub fn contains(&self, other: Mods) -> (b: bool)
        ensures
            b == self.spec_contains(other),
    {
        (!other.ctrl || self.ctrl) && (!other.shift || self.shift) && (!other.alt || self.alt)
            && (!other.super_key || self.super_key) && (!other.right || self.right)
    }
}

/// The modifiers a modifier key's name stands for, such as `RIGHT_CTRL`.
pub open spec fn mods_of_name(name: Seq<char>) -> Option<Mods> {
    let none = Mods { ctrl: false, shift: false, alt: false, super_key: false, right: false };
    if name == "LEFT_CTRL"@ {
        Some(Mods { ctrl: true, ..none })
    } else if name == "LEFT_SHIFT"@ {
        Some(Mods { shift: true, ..none })
    } else if name == "LEFT_ALT"@ {
        Some(Mods { alt: true, ..none })
    } else if name == "LEFT_SUPER"@ {
        Some(Mods { super_key: true, ..none })
    } else if name == "RIGHT_CTRL"@ {
        Some(Mods { ctrl: true, right: true, ..none })
    } else if name == "RIGHT_SHIFT"@ {
        Some(Mods { shift: true, right: true, ..none })
    } else if name == "RIGHT_ALT"@ {
        Some(Mods { alt: true, right: true, ..none })
    } else if name == "RIGHT_SUPER"@ {
        Some(Mods { super_key: true, right: true, ..none })
    } else {
        None
    }
}

impl Mods {
    /// The modifiers of a modifier key's name, such as `LEFT_SHIFT`.
    pub fn from_mod_str(name: &str) -> (m: Option<Mods>)
        ensures
            m == mods_of_name(name@),
    {
        let none = Mods::empty();
        if str_eq(name, "LEFT_CTRL") {
            Some(Mods { ctrl: true, ..none })
        } else if str_eq(name, "LEFT_SHIFT") {
            Some(Mods { shift: true, ..none })
        } else if str_eq(name, "LEFT_ALT") {
            Some(Mods { alt: true, ..none })
        } else if str_eq(name, "LEFT_SUPER") {
            Some(Mods { super_key: true, ..none })
        } else if str_eq(name, "RIGHT_CTRL") {
            Some(Mods { ctrl: true, right: true, ..none })
        } else if str_eq(name, "RIGHT_SHIFT") {
            Some(Mods { shift: true, right: true, ..none })
        } else if str_eq(name, "RIGHT_ALT") {
            Some(Mods { alt: true, right: true, ..none })
        } else if str_eq(name, "RIGHT_SUPER") {
            Some(Mods { super_key: true, right: true, ..none })
        } else {
            None
        }
    }
}

/// A keycode of the keymap.
#[derive(Debug)]
pub enum Keycode {
    /// A key with modifiers held.
    Basic(Mods, String),
    /// Modifiers when held, the key when tapped.
    MT(Mods, String),
    /// A layer when held, the key when tapped.
    LT(u8, String),
}

/// A keycode with its key name taken as a character sequence.
pub enum KeycodeView {
    Basic(Mods, Seq<char>),
    MT(Mods, Seq<char>),
    LT(u8, Seq<char>),
}

impl View for Keycode {
    type V = KeycodeView;

    open spec fn view(&self) -> KeycodeView {
        match self {
            Keycode::Basic(m, k) => KeycodeView::Basic(*m, k@),
            Keycode::MT(m, k) => KeycodeView::MT(*m, k@),
            Keycode::LT(l, k) => KeycodeView::LT(*l, k@),
        }
    }
}


impl Keycode {
    /// A keycode equal to this one.
    pub fn copy_of(&self) -> (k: Keycode)
        ensures
            k@ == self@,
    {
        match self {
            Keycode::Basic(m, name) => Keycode::Basic(*m, name.clone()),
            Keycode::MT(m, name) => Keycode::MT(*m, name.clone()),
            Keycode::LT(l, name) => Keycode::LT(*l, name.clone()),
        }
    }
}

} // verus!
