//! The pages of a board's view and the text each shows on a key: on a layer
//! page, the label of the key's keycode on that layer, with its modifiers or
//! its hold action.

use vstd::prelude::*;
use vstd::string::StringExecFns;

use crate::application::key::{Key, KeyView};
use crate::keycode::{Keycode, KeycodeView, Mods};
use crate::strmap::StrMap;
use crate::text::{decimal, push_decimal, str_eq};

verus! {

/// A page of the keyboard view.
#[derive(Clone, Copy, Debug, PartialEq, Eq, Hash, Structural)]
pub enum Page {
    Layer1,
    Layer2,
    Layer3,
    Layer4,
    Keycaps,
    Logical,
    Electrical,
    Leds,
}

/// Every page, in the order the view lists them.
pub open spec fn all_pages() -> Seq<Page> {
    seq![
        Page::Layer1,
        Page::Layer2,
        Page::Layer3,
        Page::Layer4,
        Page::Keycaps,
        Page::Logical,
        Page::Electrical,
        Page::Leds,
    ]
}

/// The keys held while a layer-tap key is held: one per layer it can reach.
pub open spec fn layer_keys() -> Seq<Seq<char>> {
    seq!["LAYER_ACCESS_1"@, "FN"@, "LAYER_ACCESS_3"@, "LAYER_ACCESS_4"@]
}

/// The names of the layer keys, in layer order.
pub fn layer_key_names() -> (v: Vec<&'static str>)
    ensures
        v@.map_values(|s: &str| s@) == layer_keys(),
{
    let v = vec!["LAYER_ACCESS_1", "FN", "LAYER_ACCESS_3", "LAYER_ACCESS_4"];
    assert(v@.map_values(|s: &str| s@) =~= layer_keys());
    v
}

impl Page {
    /// The message identifier of the page's localized name.
    pub open spec fn spec_name_id(self) -> Seq<char> {
        match self {
            Page::Layer1 => "page-layer1"@,
            Page::Layer2 => "page-layer2"@,
            Page::Layer3 => "page-layer3"@,
            Page::Layer4 => "page-layer4"@,
            Page::Keycaps => "page-keycaps"@,
            Page::Logical => "page-logical"@,
            Page::Electrical => "page-electrical"@,
            Page::Leds => "page-leds"@,
        }
    }

    /// The keymap layer that a layer page shows.
    pub open spec fn spec_layer(self) -> Option<usize> {
        match self {
            Page::Layer1 => Some(0),
            Page::Layer2 => Some(1),
            Page::Layer3 => Some(2),
            Page::Layer4 => Some(3),
            _ => None,
        }
    }

    /// Pages shown only when debug pages are asked for.
    pub open spec fn spec_is_debug(self) -> bool {
        match self {
            Page::Keycaps | Page::Logical | Page::Electrical | Page::Leds => true,
            _ => false,
        }
    }

    /// The message identifier of the page's name among the localized messages.
    pub fn name_id(&self) -> (n: &'static str)
        ensures
            n@ == self.spec_name_id(),
    {
        match self {
            Self::Layer1 => "page-layer1",
            Self::Layer2 => "page-layer2",
            Self::Layer3 => "page-layer3",
            Self::Layer4 => "page-layer4",
            Self::Keycaps => "page-keycaps",
            Self::Logical => "page-logical",
            Self::Electrical => "page-electrical",
            Self::Leds => "page-leds",
        }
    }

    /// The keymap layer that a layer page shows.
    pub fn layer(&self) -> (l: Option<usize>)
        ensures
            l == self.spec_layer(),
    {
        match self {
            Self::Layer1 => Some(0),
            Self::Layer2 => Some(1),
            Self::Layer3 => Some(2),
            Self::Layer4 => Some(3),
            _ => None,
        }
    }

    /// Whether the page is shown only when debug pages are asked for.
    pub fn is_debug(&self) -> (b: bool)
        ensures
            b == self.spec_is_debug(),
    {
        match self {
            Self::Keycaps | Self::Logical | Self::Electrical | Self::Leds => true,
            _ => false,
        }
    }

    /// Every page, in order.
    pub fn iter_all() -> (v: Vec<Self>)
        ensures
            v@ == all_pages(),
    {
        let v = vec![
            Self::Layer1,
            Self::Layer2,
            Self::Layer3,
            Self::Layer4,
            Self::Keycaps,
            Self::Logical,
            Self::Electrical,
            Self::Leds,
        ];
        assert(v@ =~= all_pages());
        v
    }
}

impl Default for Page {
    fn default() -> (p: Self)
        ensures
            p == Page::Layer1,
    {
        Self::Layer1
    }
}

/// The names of the modifiers in `m`, in the order Ctrl, Shift, Alt, Super.
pub open spec fn modifier_names(m: Mods) -> Seq<Seq<char>> {
    (if m.ctrl { seq!["Ctrl"@] } else { seq![] }) + (if m.shift { seq!["Shift"@] } else { seq![] })
        + (if m.alt { seq!["Alt"@] } else { seq![] }) + (if m.super_key { seq!["Super"@] } else { seq![] })
}

/// Names joined with `" + "` between them.
pub open spec fn join_plus(names: Seq<Seq<char>>) -> Seq<char>
    decreases names.len(),
{
    if names.len() == 0 {
        seq![]
    } else if names.len() == 1 {
        names[0]
    } else {
        join_plus(names.drop_last()) + " + "@ + names.last()
    }
}

/// The label of a set of modifiers: empty for none; otherwise `Left ` or
/// `Right ` followed by the modifiers joined with `" + "`.
pub open spec fn mods_label_text(m: Mods) -> Seq<char> {
    if m.spec_is_empty() {
        seq![]
    } else {
        (if m.right { "Right "@ } else { "Left "@ }) + join_plus(modifier_names(m))
    }
}

fn push_modifier(label: &mut String, first: &mut bool, name: &str, Ghost(side): Ghost<Seq<char>>, Ghost(names): Ghost<Seq<Seq<char>>>)
    requires
        *old(first) <==> names.len() == 0,
        old(label)@ == side + join_plus(names),
    ensures
        !*final(first),
        final(label)@ == side + join_plus(names.push(name@)),
{
    if !*first {
        label.append(" + ");
    }
    label.append(name);
    *first = false;
    proof {
        assert(names.push(name@).drop_last() =~= names);
        if names.len() == 0 {
            assert(join_plus(names) =~= Seq::<char>::empty());
        }
    }
}

/// The label of a set of modifiers, such as `Left Ctrl + Shift`.
pub fn mods_label(mods: Mods) -> (s: String)
    ensures
        s@ == mods_label_text(mods),
{
    if mods.is_empty() {
        return String::new();
    }
    let mut label = if mods.contains(Mods::right()) {
        String::from_str("Right ")
    } else {
        String::from_str("Left ")
    };
    let ghost side = label@;
    let ghost mut names: Seq<Seq<char>> = seq![];
    let mut first = true;
    assert(label@ =~= side + join_plus(names));
    if mods.contains(Mods::ctrl()) {
        push_modifier(&mut label, &mut first, "Ctrl", Ghost(side), Ghost(names));
        proof { names = names.push("Ctrl"@); }
    }
    if mods.contains(Mods::shift()) {
        push_modifier(&mut label, &mut first, "Shift", Ghost(side), Ghost(names));
        proof { names = names.push("Shift"@); }
    }
    if mods.contains(Mods::alt()) {
        push_modifier(&mut label, &mut first, "Alt", Ghost(side), Ghost(names));
        proof { names = names.push("Alt"@); }
    }
    if mods.contains(Mods::super_()) {
        push_modifier(&mut label, &mut first, "Super", Ghost(side), Ghost(names));
        proof { names = names.push("Super"@); }
    }
    assert(names =~= modifier_names(mods));
    label
}

/// `t` occurs in `s` as a run of consecutive characters.
pub open spec fn has_text(s: Seq<char>, t: Seq<char>) -> bool {
    exists|i: int| 0 <= i && i + t.len() <= s.len() && #[trigger] s.subrange(i, i + t.len()) == t
}

proof fn lemma_join_plus_has_each(names: Seq<Seq<char>>, t: int)
    requires
        0 <= t < names.len(),
    ensures
        has_text(join_plus(names), names[t]),
    decreases names.len(),
{
    let j = join_plus(names);
    if names.len() == 1 {
        let i: int = 0;
        assert(j.subrange(i, i + names[t].len()) =~= names[t]);
    } else {
        let p = join_plus(names.drop_last());
        assert(j == p + " + "@ + names.last());
        if t == names.len() - 1 {
            let i: int = (p.len() + " + "@.len()) as int;
            assert(j.subrange(i, i + names[t].len()) =~= names[t]);
        } else {
            lemma_join_plus_has_each(names.drop_last(), t);
            assert(names.drop_last()[t] == names[t]);
            let i = choose|i: int|
                0 <= i && i + names[t].len() <= p.len() && #[trigger] p.subrange(i, i + names[t].len()) == names[t];
            assert(j.subrange(i, i + names[t].len()) =~= p.subrange(i, i + names[t].len()));
        }
    }
}

proof fn lemma_label_has_name(side: Seq<char>, names: Seq<Seq<char>>, t: int)
    requires
        0 <= t < names.len(),
    ensures
        has_text(side + join_plus(names), names[t]),
{
    lemma_join_plus_has_each(names, t);
    let j = join_plus(names);
    let i = choose|i: int| 0 <= i && i + names[t].len() <= j.len() && #[trigger] j.subrange(i, i + names[t].len()) == names[t];
    let k = side.len() + i;
    assert((side + j).subrange(k, k + names[t].len()) =~= j.subrange(i, i + names[t].len()));
}

/// A modifier label is empty exactly when no modifier is set; otherwise it
/// starts with `Right ` or `Left ` as the right-hand flag says, and names
/// every one of Ctrl, Shift, Alt and Super that is set.
pub proof fn lemma_mods_label_names_each_modifier(m: Mods)
    ensures
        m.spec_is_empty() <==> mods_label_text(m).len() == 0,
        !m.spec_is_empty() && m.right ==> mods_label_text(m).take("Right "@.len() as int) == "Right "@,
        !m.spec_is_empty() && !m.right ==> mods_label_text(m).take("Left "@.len() as int) == "Left "@,
        m.ctrl ==> has_text(mods_label_text(m), "Ctrl"@),
        m.shift ==> has_text(mods_label_text(m), "Shift"@),
        m.alt ==> has_text(mods_label_text(m), "Alt"@),
        m.super_key ==> has_text(mods_label_text(m), "Super"@),
        modifier_names(m).len() == (if m.ctrl { 1int } else { 0 }) + (if m.shift { 1int } else { 0 }) + (if m.alt {
            1int
        } else {
            0
        }) + (if m.super_key { 1int } else { 0 }),
{
    reveal_strlit("Right ");
    reveal_strlit("Left ");
    let names = modifier_names(m);
    let side: Seq<char> = if m.right { "Right "@ } else { "Left "@ };
    let c: Seq<Seq<char>> = if m.ctrl { seq!["Ctrl"@] } else { seq![] };
    let sh: Seq<Seq<char>> = if m.shift { seq!["Shift"@] } else { seq![] };
    let a: Seq<Seq<char>> = if m.alt { seq!["Alt"@] } else { seq![] };
    let su: Seq<Seq<char>> = if m.super_key { seq!["Super"@] } else { seq![] };
    assert(names == c + sh + a + su);
    if !m.spec_is_empty() {
        assert(mods_label_text(m) == side + join_plus(names));
        assert((side + join_plus(names)).take(side.len() as int) =~= side);
        if m.ctrl {
            assert(names[0] == "Ctrl"@);
            lemma_label_has_name(side, names, 0);
        }
        if m.shift {
            let t = c.len() as int;
            assert(names[t] == "Shift"@);
            lemma_label_has_name(side, names, t);
        }
        if m.alt {
            let t = (c.len() + sh.len()) as int;
            assert(names[t] == "Alt"@);
            lemma_label_has_name(side, names, t);
        }
        if m.super_key {
            let t = (c.len() + sh.len() + a.len()) as int;
            assert(names[t] == "Super"@);
            lemma_label_has_name(side, names, t);
        }
    }
}

/// The label of a key name, if `labels` has one.
pub open spec fn label_of(labels: Map<Seq<char>, String>, name: Seq<char>) -> Option<Seq<char>> {
    if labels.contains_key(name) {
        Some(labels[name]@)
    } else {
        None
    }
}

/// The lines of text that show a keycode, or `None` where a label it needs
/// is missing:
/// - a plain key: its label alone, or with modifiers, the modifiers' label,
///   then ` + ` and the key's label unless the key is `NONE`;
/// - mod-tap: the modifiers' label, then the key's label;
/// - layer-tap: the label of the layer's key, then the key's label.
pub open spec fn keycode_label_lines(k: KeycodeView, labels: Map<Seq<char>, String>) -> Option<Seq<Seq<char>>> {
    match k {
        KeycodeView::Basic(m, name) => if m.spec_is_empty() {
            match label_of(labels, name) {
                Some(l) => Some(seq![l]),
                None => None,
            }
        } else if name == "NONE"@ {
            Some(seq![mods_label_text(m)])
        } else {
            match label_of(labels, name) {
                Some(l) => Some(seq![mods_label_text(m) + " + "@ + l]),
                None => None,
            }
        },
        KeycodeView::MT(m, name) => match label_of(labels, name) {
            Some(l) => Some(seq![mods_label_text(m), l]),
            None => None,
        },
        KeycodeView::LT(layer, name) => if layer < 4 {
            match (label_of(labels, layer_keys()[layer as int]), label_of(labels, name)) {
                (Some(a), Some(b)) => Some(seq![a, b]),
                _ => None,
            }
        } else {
            None
        },
    }
}

/// Strings as character sequences.
pub open spec fn strings_view(v: Seq<String>) -> Seq<Seq<char>> {
    v.map_values(|s: String| s@)
}

fn label_for(labels: &StrMap<String>, name: &str) -> (r: Option<String>)
    ensures
        r matches Some(s) ==> label_of(labels@, name@) == Some(s@),
        r is None <==> label_of(labels@, name@) is None,
{
    match labels.get(name) {
        Some(l) => Some(l.clone()),
        None => None,
    }
}

/// The lines of text that show a keycode, given the label of each key name.
pub fn keycode_label(keycode: &Keycode, labels: &StrMap<String>) -> (r: Option<Vec<String>>)
    ensures
        r matches Some(v) ==> keycode_label_lines(keycode@, labels@) == Some(strings_view(v@)),
        r is None <==> keycode_label_lines(keycode@, labels@) is None,
{
    match keycode {
        Keycode::Basic(mods, name) => {
            if mods.is_empty() {
                match label_for(labels, name.as_str()) {
                    Some(l) => {
                        let v = vec![l];
                        assert(strings_view(v@) =~= seq![v@[0]@]);
                        Some(v)
                    },
                    None => None,
                }
            } else {
                let mut label = mods_label(*mods);
                if !str_eq(name.as_str(), "NONE") {
                    match label_for(labels, name.as_str()) {
                        Some(l) => {
                            label.append(" + ");
                            label.append(l.as_str());
                        },
                        None => return None,
                    }
                }
                let v = vec![label];
                assert(strings_view(v@) =~= seq![v@[0]@]);
                Some(v)
            }
        },
        Keycode::MT(mods, name) => {
            let m = mods_label(*mods);
            match label_for(labels, name.as_str()) {
                Some(l) => {
                    let v = vec![m, l];
                    assert(strings_view(v@) =~= seq![v@[0]@, v@[1]@]);
                    Some(v)
                },
                None => None,
            }
        },
        Keycode::LT(layer, name) => {
            let layers = layer_key_names();
            assert(layers@.map_values(|s: &str| s@).len() == layers@.len());
            assert(layer_keys().len() == 4);
            if (*layer as usize) < layers.len() {
                let layer_id = layers[*layer as usize];
                assert(layer_id@ == layer_keys()[*layer as int]);
                match (label_for(labels, layer_id), label_for(labels, name.as_str())) {
                    (Some(a), Some(b)) => {
                        let v = vec![a, b];
                        assert(strings_view(v@) =~= seq![v@[0]@, v@[1]@]);
                        Some(v)
                    },
                    _ => None,
                }
            } else {
                None
            }
        },
    }
}

/// A keycode written with raw key names, for when a label is missing: a
/// plain key as its name, after its modifiers' label and ` + ` where it has
/// modifiers; mod-tap as `MT(` modifiers `, ` name `)`; layer-tap as `LT(`
/// layer `, ` name `)`.
pub open spec fn keycode_text(k: KeycodeView) -> Seq<char> {
    match k {
        KeycodeView::Basic(m, name) => if m.spec_is_empty() {
            name
        } else {
            mods_label_text(m) + " + "@ + name
        },
        KeycodeView::MT(m, name) => "MT("@ + mods_label_text(m) + ", "@ + name + ")"@,
        KeycodeView::LT(layer, name) => "LT("@ + decimal(layer as nat) + ", "@ + name + ")"@,
    }
}

/// The keycode written with raw key names; see `keycode_text`.
pub fn keycode_text_of(k: &Keycode) -> (s: String)
    ensures
        s@ == keycode_text(k@),
{
    proof {
        reveal_strlit(" + ");
        reveal_strlit("MT(");
        reveal_strlit("LT(");
        reveal_strlit(", ");
        reveal_strlit(")");
    }
    match k {
        Keycode::Basic(m, name) => {
            if m.is_empty() {
                name.clone()
            } else {
                let mut s = mods_label(*m);
                s.append(" + ");
                s.append(name.as_str());
                s
            }
        },
        Keycode::MT(m, name) => {
            let mut s = String::from_str("MT(");
            let label = mods_label(*m);
            s.append(label.as_str());
            s.append(", ");
            s.append(name.as_str());
            s.append(")");
            s
        },
        Keycode::LT(layer, name) => {
            let mut s = String::from_str("LT(");
            push_decimal(&mut s, *layer as u64);
            s.append(", ");
            s.append(name.as_str());
            s.append(")");
            s
        },
    }
}

/// The lines of text a page shows on a key whose layers hold `scancodes`
/// (each the raw scancode and the keycode it decodes to, if any): on a layer
/// page, the keycode's label, its plain text where a label is missing, or
/// the raw scancode in decimal where it decodes to no keycode; otherwise the
/// key's keycap, logical, electrical or LED name.
pub open spec fn page_label_lines(
    page: Page,
    key: KeyView,
    scancode: u16,
    keycode: Option<KeycodeView>,
    labels: Map<Seq<char>, String>,
) -> Seq<Seq<char>> {
    match page {
        Page::Keycaps => seq![key.physical_name],
        Page::Logical => seq![key.logical_name],
        Page::Electrical => seq![key.electrical_name],
        Page::Leds => seq![key.led_name],
        _ => match keycode {
            Some(k) => match keycode_label_lines(k, labels) {
                Some(lines) => lines,
                None => seq![keycode_text(k)],
            },
            None => seq![decimal(scancode as nat)],
        },
    }
}

/// An optional keycode as its view.
pub open spec fn keycode_opt_view(k: Option<Keycode>) -> Option<KeycodeView> {
    match k {
        Some(k) => Some(k@),
        None => None,
    }
}

impl Page {
    /// The lines of text this page shows on `key`, whose layers hold
    /// `scancodes`.
    pub fn get_label(&self, key: &Key, scancodes: &Vec<(u16, Option<Keycode>)>, labels: &StrMap<String>) -> (r: Vec<String>)
        requires
            self.spec_layer() matches Some(l) ==> l < scancodes@.len(),
        ensures
            strings_view(r@) == page_label_lines(
                *self,
                key@,
                match self.spec_layer() { Some(l) => scancodes@[l as int].0, None => 0 },
                match self.spec_layer() { Some(l) => keycode_opt_view(scancodes@[l as int].1), None => None },
                labels@,
            ),
    {
        match self {
            Page::Layer1 | Page::Layer2 | Page::Layer3 | Page::Layer4 => {
                let l = self.layer().unwrap();
                let (scancode, keycode) = (&scancodes[l].0, &scancodes[l].1);
                match keycode {
                    Some(k) => match keycode_label(k, labels) {
                        Some(lines) => lines,
                        None => {
                            let v = vec![keycode_text_of(k)];
                            assert(strings_view(v@) =~= seq![v@[0]@]);
                            v
                        },
                    },
                    None => {
                        let mut s = String::new();
                        push_decimal(&mut s, *scancode as u64);
                        assert(s@ =~= decimal(*scancode as nat));
                        let v = vec![s];
                        assert(strings_view(v@) =~= seq![v@[0]@]);
                        v
                    },
                }
            },
            Page::Keycaps => {
                let v = vec![key.physical_name.clone()];
                assert(strings_view(v@) =~= seq![v@[0]@]);
                v
            },
            Page::Logical => {
                let v = vec![key.logical_name.clone()];
                assert(strings_view(v@) =~= seq![v@[0]@]);
                v
            },
            Page::Electrical => {
                let v = vec![key.electrical_name.clone()];
                assert(strings_view(v@) =~= seq![v@[0]@]);
                v
            },
            Page::Leds => {
                let v = vec![key.led_name.clone()];
                assert(strings_view(v@) =~= seq![v@[0]@]);
                v
            },
        }
    }
}

} // verus!
