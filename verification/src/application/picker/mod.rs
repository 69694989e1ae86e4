//! The key picker as picker.csv describes it.

pub mod picker_csv;

use vstd::prelude::*;
use vstd::string::{StrSliceExecFns, StringExecFns};

use crate::strmap::StrMap;
use crate::text::{parse_i32, parsed_i32, push_char};
use picker_csv::{csv_records, field, get_field, read_csv_records, records_view};

verus! {

/// A key of the picker.
pub struct PickerKey {
    /// Symbolic name of the key
    pub name: String,
    /// Text on key
    pub text: String,
}

/// A group of keys of the picker.
pub struct PickerGroup {
    /// Name of the group
    pub name: String,
    /// Number of keys to show in each row
    pub cols: i32,
    /// Width of each key in this group
    pub width: i32,
    /// Keys in this group
    pub keys: Vec<PickerKey>,
}

/// The groups of keys of the picker, and each key by its name.
pub struct Picker {
    pub groups: Vec<PickerGroup>,
    pub keys: StrMap<PickerKey>,
}

/// A picker key as character sequences.
pub struct PickerKeyView {
    pub name: Seq<char>,
    pub text: Seq<char>,
}

/// A picker group as character sequences.
pub struct PickerGroupView {
    pub name: Seq<char>,
    pub cols: i32,
    pub width: i32,
    pub keys: Seq<PickerKeyView>,
}

impl View for PickerKey {
    type V = PickerKeyView;

    open spec fn view(&self) -> PickerKeyView {
        PickerKeyView { name: self.name@, text: self.text@ }
    }
}

impl View for PickerGroup {
    type V = PickerGroupView;

    open spec fn view(&self) -> PickerGroupView {
        PickerGroupView { name: self.name@, cols: self.cols, width: self.width, keys: self.keys@.map_values(|k: PickerKey| k@) }
    }
}

/// The column count a group shows where its header's is not a number.
pub const DEFAULT_COLS: i32 = 3;

/// Reading picker.csv into groups: whether the next line starts a group, the
/// groups so far, and each key so far by name.
pub struct PickerWalk {
    pub is_group: bool,
    pub groups: Seq<PickerGroupView>,
    pub keys: Map<Seq<char>, PickerKeyView>,
}

/// A key's text: the top text, and the bottom text on a second line where
/// there is one.
pub open spec fn key_text(top: Seq<char>, bottom: Seq<char>) -> Seq<char> {
    if bottom.len() == 0 {
        top
    } else {
        top + seq!['\n'] + bottom
    }
}

/// An empty name ends a group; the next line is a group header, whose column
/// count is 3 and key width 1 where they are not numbers; the others are keys
/// of the last group (a key before any group belongs to none), each also
/// found by its name.
pub open spec fn picker_step(s: PickerWalk, record: Seq<Seq<char>>) -> PickerWalk {
    let name = field(record, 0);
    if name.len() == 0 {
        PickerWalk { is_group: true, ..s }
    } else if s.is_group {
        let cols = match parsed_i32(field(record, 1)) {
            Some(c) => c,
            None => DEFAULT_COLS,
        };
        let width = match parsed_i32(field(record, 2)) {
            Some(w) => w,
            None => 1,
        };
        PickerWalk { is_group: false, groups: s.groups.push(PickerGroupView { name, cols, width, keys: seq![] }), ..s }
    } else {
        let key = PickerKeyView { name, text: key_text(field(record, 1), field(record, 2)) };
        let groups = if s.groups.len() > 0 {
            let last = s.groups.last();
            s.groups.update(s.groups.len() - 1, PickerGroupView { keys: last.keys.push(key), ..last })
        } else {
            s.groups
        };
        PickerWalk { groups, keys: s.keys.insert(name, key), ..s }
    }
}

/// The picker after the first `n` records.
pub open spec fn picker_walk(records: Seq<Seq<Seq<char>>>, n: int) -> PickerWalk
    decreases n,
{
    if n <= 0 {
        PickerWalk { is_group: true, groups: seq![], keys: Map::empty() }
    } else {
        picker_step(picker_walk(records, n - 1), records[n - 1])
    }
}


/// Every key that a group lists can be found by its name.
pub proof fn lemma_group_keys_found(records: Seq<Seq<Seq<char>>>, n: int)
    ensures
        forall|g: int, k: int|
            0 <= g < picker_walk(records, n).groups.len() && 0 <= k < picker_walk(records, n).groups[g].keys.len()
                ==> picker_walk(records, n).keys.contains_key(#[trigger] picker_walk(records, n).groups[g].keys[k].name),
    decreases n,
{
    if n > 0 {
        lemma_group_keys_found(records, n - 1);
        let s = picker_walk(records, n - 1);
        let t = picker_walk(records, n);
        assert forall|g: int, k: int| 0 <= g < t.groups.len() && 0 <= k < t.groups[g].keys.len() implies t.keys.contains_key(
            #[trigger] t.groups[g].keys[k].name,
        ) by {
            let name = field(records[n - 1], 0);
            if name.len() == 0 {
            } else if s.is_group {
                if g < s.groups.len() {
                    assert(t.groups[g] == s.groups[g]);
                    assert(s.keys.contains_key(s.groups[g].keys[k].name));
                } else {
                    assert(t.groups[g].keys.len() == 0);
                }
            } else {
                if g == s.groups.len() - 1 && k == s.groups[g].keys.len() {
                    assert(t.groups[g].keys[k].name == name);
                } else {
                    assert(t.groups[g].keys[k] == s.groups[g].keys[k]);
                    assert(s.keys.contains_key(s.groups[g].keys[k].name));
                }
            }
        }
    }
}

impl Picker {
    /// The groups as character sequences.
    pub open spec fn groups_view(self) -> Seq<PickerGroupView> {
        self.groups@.map_values(|g: PickerGroup| g@)
    }

    /// Each key by name, as character sequences.
    pub open spec fn keys_view(self) -> Map<Seq<char>, PickerKeyView> {
        self.keys@.map_values(|k: PickerKey| k@)
    }

    /// The picker of picker.csv's records: its groups, and each key by
    /// name (see `picker_walk`).
    pub fn from_records(records: &Vec<Vec<String>>) -> (p: Self)
        ensures
            ({
                let w = picker_walk(records_view(records@), records@.len() as int);
                p.groups_view() == w.groups && p.keys_view() == w.keys
            }),
    {
        let ghost rv = records_view(records@);
        let mut groups: Vec<PickerGroup> = Vec::new();
        let mut keys: StrMap<PickerKey> = StrMap::new();
        let mut is_group = true;
        let mut i: usize = 0;
        assert(groups@.map_values(|g: PickerGroup| g@) =~= Seq::<PickerGroupView>::empty());
        assert(keys@.map_values(|k: PickerKey| k@) =~= Map::<Seq<char>, PickerKeyView>::empty());
        while i < records.len()
            invariant
                rv == records_view(records@),
                i <= records@.len(),
                is_group == picker_walk(rv, i as int).is_group,
                groups@.map_values(|g: PickerGroup| g@) == picker_walk(rv, i as int).groups,
                keys@.map_values(|k: PickerKey| k@) == picker_walk(rv, i as int).keys,
            decreases records@.len() - i,
        {
            let record = &records[i];
            assert(rv[i as int] == record@.map_values(|s: String| s@));
            let name = get_field(record, 0);
            let ghost gbefore = groups@;
            let ghost kbefore = keys@;
            if name.unicode_len() == 0 {
                is_group = true;
            } else if is_group {
                is_group = false;
                let cols = match parse_i32(get_field(record, 1).as_str()) {
                    Some(c) => c,
                    None => DEFAULT_COLS,
                };
                let width = match parse_i32(get_field(record, 2).as_str()) {
                    Some(w) => w,
                    None => 1,
                };
                let g = PickerGroup { name, cols, width, keys: Vec::new() };
                let ghost gv = g@;
                assert(gv.keys =~= Seq::<PickerKeyView>::empty());
                groups.push(g);
                assert(groups@.map_values(|g: PickerGroup| g@) =~= gbefore.map_values(|g: PickerGroup| g@).push(gv));
            } else {
                let top = get_field(record, 1);
                let bottom = get_field(record, 2);
                let text = if bottom.unicode_len() == 0 {
                    top
                } else {
                    let mut t = top;
                    push_char(&mut t, '\n');
                    t.append(bottom.as_str());
                    t
                };
                let ghost kv = PickerKeyView { name: name@, text: text@ };
                assert(text@ =~= key_text(field(rv[i as int], 1), field(rv[i as int], 2)));
                let n = groups.len();
                if n > 0 {
                    let ghost last = groups@[n - 1];
                    groups[n - 1].keys.push(PickerKey { name: name.clone(), text: text.clone() });
                    assert(groups@[n - 1]@.keys =~= last@.keys.push(kv));
                    assert(groups@.map_values(|g: PickerGroup| g@) =~= gbefore.map_values(|g: PickerGroup| g@).update(
                        n - 1,
                        PickerGroupView { keys: last@.keys.push(kv), ..last@ },
                    ));
                }
                keys.insert(name.clone(), PickerKey { name, text });
                assert(keys@.map_values(|k: PickerKey| k@) =~= kbefore.map_values(|k: PickerKey| k@).insert(name@, kv));
            }
            i = i + 1;
        }
        Picker { groups, keys }
    }

    /// The picker of a picker.csv text whose records the csv crate reads.
    pub fn new(picker_csv: &str) -> (p: Self)
        requires
            csv_records(picker_csv@) is Some,
        ensures
            ({
                let records = csv_records(picker_csv@).unwrap();
                let w = picker_walk(records, records.len() as int);
                p.groups_view() == w.groups && p.keys_view() == w.keys
            }),
    {
        let records = read_csv_records(picker_csv).unwrap();
        Self::from_records(&records)
    }

    /// As `new`, or `None` where the csv crate does not read the text.
    pub fn try_new(picker_csv: &str) -> (r: Option<Self>)
        ensures
            r is Some <==> csv_records(picker_csv@) is Some,
            r matches Some(p) ==> ({
                let records = csv_records(picker_csv@).unwrap();
                let w = picker_walk(records, records.len() as int);
                p.groups_view() == w.groups && p.keys_view() == w.keys
            }),
    {
        if read_csv_records(picker_csv).is_some() {
            Some(Self::new(picker_csv))
        } else {
            None
        }
    }
}

} // verus!
