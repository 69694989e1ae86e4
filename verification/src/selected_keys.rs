//! The keys selected on a keyboard layer, by their index among the board's
//! keys, and how a click on a key changes the selection.

use vstd::prelude::*;
use std::collections::HashSet;
use vstd::std_specs::iter::IteratorSpec;

verus! {

broadcast use vstd::std_specs::hash::group_hash_axioms;

/// A set of key indices.
pub struct SelectedKeys(HashSet<usize>);

impl View for SelectedKeys {
    type V = Set<usize>;

    closed spec fn view(&self) -> Set<usize> {
        self.0@
    }
}

/// The selection after a click on key `pressed`. With shift held on a layer
/// that allows several keys, the key is added to or taken out of the
/// selection. Otherwise a click on a selected key clears the selection, and
/// a click on any other key selects that key alone.
pub open spec fn clicked_selection(selected: Set<usize>, pressed: usize, shift: bool, multiple: bool) -> Set<usize> {
    if shift && multiple {
        if selected.contains(pressed) {
            selected.remove(pressed)
        } else {
            selected.insert(pressed)
        }
    } else if selected.contains(pressed) {
        Set::empty()
    } else {
        Set::empty().insert(pressed)
    }
}

impl SelectedKeys {
    /// No key selected.
    pub fn new() -> (s: Self)
        ensures
            s@ == Set::<usize>::empty(),
    {
        SelectedKeys(HashSet::new())
    }

    /// Whether `key` is selected.
    pub fn contains(&self, key: usize) -> (b: bool)
        ensures
            b == self@.contains(key),
    {
        self.0.contains(&key)
    }

    /// Adds `key`; true if it was not selected before.
    pub fn insert(&mut self, key: usize) -> (added: bool)
        ensures
            final(self)@ == old(self)@.insert(key),
            added == !old(self)@.contains(key),
    {
        self.0.insert(key)
    }

    /// Takes `key` out; true if it was selected.
    pub fn remove(&mut self, key: usize) -> (removed: bool)
        ensures
            final(self)@ == old(self)@.remove(key),
            removed == old(self)@.contains(key),
    {
        self.0.remove(&key)
    }

    /// Selects nothing.
    pub fn clear(&mut self)
        ensures
            final(self)@ == Set::<usize>::empty(),
    {
        self.0.clear()
    }

    /// The number of selected keys.
    pub fn len(&self) -> (n: usize)
        ensures
            n == self@.len(),
    {
        self.0.len()
    }

    /// Whether nothing is selected.
    pub fn is_empty(&self) -> (b: bool)
        ensures
            b == (self@.len() == 0),
    {
        self.0.len() == 0
    }


    /// The selected keys, each once, in the set's own order.
    pub fn to_vec(&self) -> (v: Vec<usize>)
        ensures
            v@.to_set() == self@,
            v@.no_duplicates(),
            v@.len() == self@.len(),
    {
        let mut v: Vec<usize> = Vec::new();
        let ghost elems = vstd::std_specs::hash::spec_hash_keys_iter(&self.0).remaining();
        for k in it: self.0.iter()
            invariant
                it.seq() == elems,
                v@ == it.seq().take(it.index() as int).map_values(|r: &usize| *r),
        {
            v.push(*k);
            assert(v@ =~= it.seq().take(it.index() + 1).map_values(|r: &usize| *r));
        }
        proof {
            assert(v@ =~= elems.map_values(|r: &usize| *r));
            assert(elems.unref() =~= elems.map_values(|r: &usize| *r));
        }
        v
    }

    /// Applies a click on key `pressed`, as `clicked_selection` says.
    pub fn click(&mut self, pressed: usize, shift: bool, multiple: bool)
        ensures
            final(self)@ == clicked_selection(old(self)@, pressed, shift, multiple),
    {
        if shift && multiple {
            if self.contains(pressed) {
                self.remove(pressed);
            } else {
                self.insert(pressed);
            }
        } else {
            if self.contains(pressed) {
                self.clear();
            } else {
                self.clear();
                self.insert(pressed);
            }
        }
    }
}


/// The selection state of a keyboard layer: whether it takes clicks at all,
/// whether it allows several keys, and the keys selected.
pub struct LayerSelection {
    selectable: bool,
    multiple: bool,
    selected: SelectedKeys,
}

impl LayerSelection {
    /// Whether the layer takes clicks.
    pub closed spec fn spec_selectable(self) -> bool {
        self.selectable
    }

    /// Whether the layer allows several keys.
    pub closed spec fn spec_multiple(self) -> bool {
        self.multiple
    }

    /// The keys selected.
    pub closed spec fn spec_selected(self) -> Set<usize> {
        self.selected@
    }

    /// A layer that takes no clicks, allows one key, and has none selected.
    pub fn new() -> (l: Self)
        ensures
            !l.spec_selectable(),
            !l.spec_multiple(),
            l.spec_selected() == Set::<usize>::empty(),
    {
        LayerSelection { selectable: false, multiple: false, selected: SelectedKeys::new() }
    }

    /// The keys selected.
    pub fn selected(&self) -> (s: &SelectedKeys)
        ensures
            s@ == self.spec_selected(),
    {
        &self.selected
    }

    /// Replaces the selection.
    pub fn set_selected(&mut self, selected: SelectedKeys)
        ensures
            final(self).spec_selected() == selected@,
            final(self).spec_selectable() == old(self).spec_selectable(),
            final(self).spec_multiple() == old(self).spec_multiple(),
    {
        self.selected = selected;
    }

    /// Lets the layer take clicks, or stops it; a layer that stops taking
    /// clicks loses its selection.
    pub fn set_selectable(&mut self, selectable: bool)
        ensures
            final(self).spec_selectable() == selectable,
            final(self).spec_multiple() == old(self).spec_multiple(),
            final(self).spec_selected() == (if selectable { old(self).spec_selected() } else { Set::<usize>::empty() }),
    {
        self.selectable = selectable;
        if !selectable {
            self.selected = SelectedKeys::new();
        }
    }

    /// Allows several keys, or one.
    pub fn set_multiple(&mut self, multiple: bool)
        ensures
            final(self).spec_multiple() == multiple,
            final(self).spec_selectable() == old(self).spec_selectable(),
            final(self).spec_selected() == old(self).spec_selected(),
    {
        self.multiple = multiple;
    }

    /// A click on key `pressed`, with or without shift: ignored where the
    /// layer takes no clicks, otherwise as `clicked_selection` says.
    pub fn click(&mut self, pressed: usize, shift: bool)
        ensures
            final(self).spec_selectable() == old(self).spec_selectable(),
            final(self).spec_multiple() == old(self).spec_multiple(),
            final(self).spec_selected() == (if old(self).spec_selectable() {
                clicked_selection(old(self).spec_selected(), pressed, shift, old(self).spec_multiple())
            } else {
                old(self).spec_selected()
            }),
    {
        if self.selectable {
            let multiple = self.multiple;
            self.selected.click(pressed, shift, multiple);
        }
    }
}

/// A click without shift (or on a layer that allows one key) leaves at most
/// the clicked key selected, and the clicked key ends up selected exactly
/// when it was not selected before.
pub proof fn lemma_plain_click_selects_at_most_one(selected: Set<usize>, pressed: usize, shift: bool, multiple: bool)
    requires
        !(shift && multiple),
    ensures
        clicked_selection(selected, pressed, shift, multiple).subset_of(Set::empty().insert(pressed)),
        clicked_selection(selected, pressed, shift, multiple).len() <= 1,
        clicked_selection(selected, pressed, shift, multiple).contains(pressed) == !selected.contains(pressed),
{
    assert(Set::<usize>::empty().len() == 0);
    assert(Set::<usize>::empty().insert(pressed).len() == 1);
}

/// With shift on a layer that allows several keys, two clicks on the same key
/// give back the selection there was before.
pub proof fn lemma_shift_click_twice_restores(selected: Set<usize>, pressed: usize)
    ensures
        clicked_selection(clicked_selection(selected, pressed, true, true), pressed, true, true) =~= selected,
{
}

} // verus!
