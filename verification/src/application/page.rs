//! The pages of the keyboard view: one per keymap layer, and the pages that
//! show keycaps, logical names, electrical positions and LEDs.

use vstd::prelude::*;

use crate::application::key::{Key, KeyView};
use crate::strmap::StrMap;

verus! {

/// A page of the keyboard view.
#[derive(Clone, Copy, Debug, PartialEq, Eq, Hash, Structural)]
pub enum Page {
    Layer1,
    Layer2,
    Layer3,
    Layer4,
    Keycaps,
    Logical,
    Electrical,
    Leds,
}

/// Every page, in the order the view lists them.
pub open spec fn all_pages() -> Seq<Page> {
    seq![
        Page::Layer1,
        Page::Layer2,
        Page::Layer3,
        Page::Layer4,
        Page::Keycaps,
        Page::Logical,
        Page::Electrical,
        Page::Leds,
    ]
}

impl Page {
    /// The page's name.
    pub open spec fn spec_name(self) -> Seq<char> {
        match self {
            Page::Layer1 => "Layer 1"@,
            Page::Layer2 => "Layer 2"@,
            Page::Layer3 => "Layer 3"@,
            Page::Layer4 => "Layer 4"@,
            Page::Keycaps => "Keycaps"@,
            Page::Logical => "Logical"@,
            Page::Electrical => "Electrical"@,
            Page::Leds => "LEDs"@,
        }
    }

    /// The keymap layer that a layer page shows.
    pub open spec fn spec_layer(self) -> Option<usize> {
        match self {
            Page::Layer1 => Some(0),
            Page::Layer2 => Some(1),
            Page::Layer3 => Some(2),
            Page::Layer4 => Some(3),
            _ => None,
        }
    }

    /// Pages shown only when debug pages are asked for.
    pub open spec fn spec_is_debug(self) -> bool {
        match self {
            Page::Logical | Page::Electrical | Page::Leds => true,
            _ => false,
        }
    }

    /// The page's name.
    pub fn name(&self) -> (n: &'static str)
        ensures
            n@ == self.spec_name(),
    {
        match self {
            Self::Layer1 => "Layer 1",
            Self::Layer2 => "Layer 2",
            Self::Layer3 => "Layer 3",
            Self::Layer4 => "Layer 4",
            Self::Keycaps => "Keycaps",
            Self::Logical => "Logical",
            Self::Electrical => "Electrical",
            Self::Leds => "LEDs",
        }
    }

    /// The keymap layer that a layer page shows.
    pub fn layer(&self) -> (l: Option<usize>)
        ensures
            l == self.spec_layer(),
    {
        match self {
            Self::Layer1 => Some(0),
            Self::Layer2 => Some(1),
            Self::Layer3 => Some(2),
            Self::Layer4 => Some(3),
            _ => None,
        }
    }

    /// Whether the page is shown only when debug pages are asked for.
    pub fn is_debug(&self) -> (b: bool)
        ensures
            b == self.spec_is_debug(),
    {
        match self {
            Self::Logical | Self::Electrical | Self::Leds => true,
            _ => false,
        }
    }

    /// Every page, in order.
    pub fn iter_all() -> (v: Vec<Self>)
        ensures
            v@ == all_pages(),
    {
        let v = vec![
            Self::Layer1,
            Self::Layer2,
            Self::Layer3,
            Self::Layer4,
            Self::Keycaps,
            Self::Logical,
            Self::Electrical,
            Self::Leds,
        ];
        assert(v@ =~= all_pages());
        v
    }

    /// The text shown on `key` on this page: on a layer page, the label of
    /// the key's scancode on that layer (or the scancode name where `labels`
    /// has none); otherwise the key's keycap, logical, electrical or LED name.
    pub fn get_label(&self, key: &Key, labels: &StrMap<String>) -> (s: String)
        requires
            self.spec_layer() matches Some(l) ==> l < key.scancodes@.len(),
        ensures
            s@ == page_label(*self, key@, labels@),
    {
        match self {
            Page::Layer1 | Page::Layer2 | Page::Layer3 | Page::Layer4 => {
                let l = self.layer().unwrap();
                let scancode_name = &key.scancodes[l].1;
                match labels.get(scancode_name.as_str()) {
                    Some(label) => label.clone(),
                    None => scancode_name.clone(),
                }
            },
            Page::Keycaps => key.physical_name.clone(),
            Page::Logical => key.logical_name.clone(),
            Page::Electrical => key.electrical_name.clone(),
            Page::Leds => key.led_name.clone(),
        }
    }
}

impl Default for Page {
    fn default() -> (p: Self)
        ensures
            p == Page::Layer1,
    {
        Self::Layer1
    }
}

/// The label of a scancode name, or the name itself where `labels` has none.
pub open spec fn scancode_label(labels: Map<Seq<char>, String>, name: Seq<char>) -> Seq<char> {
    if labels.contains_key(name) {
        labels[name]@
    } else {
        name
    }
}

/// The text a page shows on a key.
pub open spec fn page_label(page: Page, key: KeyView, labels: Map<Seq<char>, String>) -> Seq<char> {
    match page {
        Page::Keycaps => key.physical_name,
        Page::Logical => key.logical_name,
        Page::Electrical => key.electrical_name,
        Page::Leds => key.led_name,
        _ => scancode_label(labels, key.scancodes[page.spec_layer().unwrap() as int].1),
    }
}

impl Key {
    /// The text shown on this key on `page`; the same as `page.get_label(self, labels)`.
    pub fn get_label(&self, page: Page, labels: &StrMap<String>) -> (s: String)
        requires
            page.spec_layer() matches Some(l) ==> l < self.scancodes@.len(),
        ensures
            s@ == page_label(page, self@, labels@),
    {
        page.get_label(self, labels)
    }
}

} // verus!
