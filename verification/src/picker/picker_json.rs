//! The groups of the picker as picker.json lists them, and the label of
//! every key they name.

use vstd::prelude::*;

use crate::strmap::StrMap;
use crate::text::str_eq;

verus! {

/// A key of picker.json: its key name and its label.
pub struct PickerJsonKey {
    pub keysym: String,
    pub label: String,
}

/// A group of picker.json: its label, section, column count, key width and
/// keys.
pub struct PickerJsonGroup {
    pub label: String,
    pub section: String,
    pub cols: u32,
    pub width: i32,
    pub keys: Vec<PickerJsonKey>,
}

/// The (key name, label) pairs of a list of keys, in order.
pub open spec fn key_pairs(keys: Seq<PickerJsonKey>) -> Seq<(Seq<char>, String)> {
    keys.map_values(|k: PickerJsonKey| (k.keysym@, k.label))
}

/// The (key name, label) pairs of all groups, group after group.
pub open spec fn group_pairs(groups: Seq<PickerJsonGroup>) -> Seq<(Seq<char>, String)>
    decreases groups.len(),
{
    if groups.len() == 0 {
        seq![]
    } else {
        group_pairs(groups.drop_last()) + key_pairs(groups.last().keys@)
    }
}

/// The label of each key name; a later pair wins.
pub open spec fn labels_from(pairs: Seq<(Seq<char>, String)>) -> Map<Seq<char>, String>
    decreases pairs.len(),
{
    if pairs.len() == 0 {
        Map::empty()
    } else {
        labels_from(pairs.drop_last()).insert(pairs.last().0, pairs.last().1)
    }
}

/// The label of every key the groups name; where a name occurs more than
/// once, the last occurrence wins.
pub fn scancode_labels(groups: &Vec<PickerJsonGroup>) -> (labels: StrMap<String>)
    ensures
        labels@ == labels_from(group_pairs(groups@)),
{
    let mut labels: StrMap<String> = StrMap::new();
    let mut i: usize = 0;
    assert(groups@.take(0) =~= Seq::<PickerJsonGroup>::empty());
    while i < groups.len()
        invariant
            i <= groups@.len(),
            labels@ == labels_from(group_pairs(groups@.take(i as int))),
        decreases groups@.len() - i,
    {
        let keys = &groups[i].keys;
        let ghost before = group_pairs(groups@.take(i as int));
        let mut j: usize = 0;
        assert(before + key_pairs(keys@.take(0)) =~= before);
        while j < keys.len()
            invariant
                j <= keys@.len(),
                labels@ == labels_from(before + key_pairs(keys@.take(j as int))),
            decreases keys@.len() - j,
        {
            let ghost p = (keys@[j as int].keysym@, keys@[j as int].label);
            assert((before + key_pairs(keys@.take(j + 1))).drop_last() =~= before + key_pairs(keys@.take(j as int)));
            assert((before + key_pairs(keys@.take(j + 1))).last() == p);
            labels.insert(keys[j].keysym.clone(), keys[j].label.clone());
            j = j + 1;
        }
        assert(groups@.take(i + 1).drop_last() =~= groups@.take(i as int));
        assert(keys@.take(j as int) =~= keys@);
        i = i + 1;
    }
    assert(groups@.take(i as int) =~= groups@);
    labels
}


/// The positions, in order, of the groups among the first `n` that belong to
/// `section`.
pub open spec fn section_positions(groups: Seq<PickerJsonGroup>, section: Seq<char>, n: int) -> Seq<usize>
    decreases n,
{
    if n <= 0 {
        Seq::empty()
    } else {
        let rest = section_positions(groups, section, n - 1);
        if groups[n - 1].section@ == section {
            rest.push((n - 1) as usize)
        } else {
            rest
        }
    }
}

/// The positions of the groups that belong to `section`, in order.
pub fn section_groups(groups: &Vec<PickerJsonGroup>, section: &str) -> (v: Vec<usize>)
    ensures
        v@ == section_positions(groups@, section@, groups@.len() as int),
{
    let mut v: Vec<usize> = Vec::new();
    let mut i: usize = 0;
    while i < groups.len()
        invariant
            i <= groups@.len(),
            v@ == section_positions(groups@, section@, i as int),
        decreases groups@.len() - i,
    {
        if str_eq(groups[i].section.as_str(), section) {
            v.push(i);
        }
        i = i + 1;
    }
    v
}

} // verus!
