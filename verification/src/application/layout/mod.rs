//! A keyboard layout: its keymap, the names of its scancodes, and the walk
//! over its physical layout that places every key.

use vstd::prelude::*;
use vstd::string::StrSliceExecFns;

pub mod meta;
pub mod physical_layout;

use crate::application::key::{Key, KeyView, Rect, UNIT};
use crate::color::{Rgb, rgb_from_hex};
use crate::strmap::StrMap;
use crate::text::{decimal, push_char, push_decimal};
use std::collections::HashMap;
use physical_layout::{PhysicalKeyEnum, PhysicalKeyMeta, PhysicalLayout, PhysicalLayoutEntry};

verus! {

/// The 36 digits of base 36, letters in upper case.
pub open spec fn base36_upper_digits() -> Seq<char> {
    seq![
        '0', '1', '2', '3', '4', '5', '6', '7', '8', '9', 'A', 'B', 'C', 'D', 'E', 'F', 'G', 'H',
        'I', 'J', 'K', 'L', 'M', 'N', 'O', 'P', 'Q', 'R', 'S', 'T', 'U', 'V', 'W', 'X', 'Y', 'Z',
    ]
}

/// The logical name of the key at a row and column: `K`, then the row and the
/// column as upper-case base-36 digits.
pub open spec fn logical_name(row: int, col: int) -> Seq<char> {
    seq!['K', base36_upper_digits()[row], base36_upper_digits()[col]]
}

/// The position just past the end of the line that starts at `i`.
pub open spec fn line_end(t: Seq<char>, i: int) -> int
    decreases t.len() - i,
{
    if i < 0 || i >= t.len() {
        t.len() as int
    } else if t[i] == '\n' {
        i
    } else {
        line_end(t, i + 1)
    }
}

/// The first line of `t`, as `str::lines` yields it: up to the first `\n`,
/// less a `\r` just before that `\n`; `None` for an empty text.
pub open spec fn first_line(t: Seq<char>) -> Option<Seq<char>> {
    if t.len() == 0 {
        None
    } else {
        let e = line_end(t, 0);
        if e < t.len() && e > 0 && t[e - 1] == '\r' {
            Some(t.take(e - 1))
        } else {
            Some(t.take(e))
        }
    }
}

/// The color written after a one-character ASCII marker (such as `#cccccc`).
/// `None` is where reading it would fail.
pub open spec fn marked_color(c: Seq<char>) -> Option<Rgb> {
    if c.len() >= 1 && (c[0] as int) < 128 {
        rgb_from_hex(c.drop_first())
    } else {
        None
    }
}

/// The value fits an `i64`.
pub open spec fn in_i64(v: int) -> bool {
    i64::MIN <= v <= i64::MAX
}

/// The state of the walk over the physical layout: the current row and
/// column, position and size of the next key, its colors, the keys placed
/// so far, and whether every step so far was well defined.
pub struct KeyWalk {
    pub row: nat,
    pub col: nat,
    pub x: int,
    pub y: int,
    pub w: int,
    pub h: int,
    pub background: Rgb,
    pub foreground: Rgb,
    pub keys: Seq<KeyView>,
    pub ok: bool,
}

/// The color of a key before physical.json gives one.
pub open spec fn default_background() -> Rgb {
    Rgb { r: 0xcc, g: 0xcc, b: 0xcc }
}

/// The color of a key's text before physical.json gives one.
pub open spec fn default_foreground() -> Rgb {
    Rgb { r: 0x00, g: 0x00, b: 0x00 }
}

/// The walk before the first entry: at the top left, a standard key, the
/// default colors and no keys.
pub open spec fn walk_start() -> KeyWalk {
    KeyWalk {
        row: 0,
        col: 0,
        x: 0,
        y: 0,
        w: UNIT as int,
        h: UNIT as int,
        background: default_background(),
        foreground: default_foreground(),
        keys: Seq::empty(),
        ok: true,
    }
}

/// A metadata entry moves the next key, may resize it and may change the
/// colors. Its colors must be readable.
pub open spec fn walk_meta(s: KeyWalk, m: PhysicalKeyMeta) -> KeyWalk {
    let x = s.x + m.x;
    let y = s.y - m.y;
    let w = match m.w {
        Some(w) => w as int,
        None => s.w,
    };
    let h = match m.h {
        Some(h) => h as int,
        None => s.h,
    };
    let bg_ok = match m.c {
        Some(c) => marked_color(c@) is Some,
        None => true,
    };
    let background = match m.c {
        Some(c) => match marked_color(c@) {
            Some(v) => v,
            None => s.background,
        },
        None => s.background,
    };
    let fg_ok = match m.t {
        Some(t) => match first_line(t@) {
            Some(l) => marked_color(l) is Some,
            None => true,
        },
        None => true,
    };
    let foreground = match m.t {
        Some(t) => match first_line(t@) {
            Some(l) => match marked_color(l) {
                Some(v) => v,
                None => s.foreground,
            },
            None => s.foreground,
        },
        None => s.foreground,
    };
    KeyWalk {
        x,
        y,
        w,
        h,
        background,
        foreground,
        ok: s.ok && in_i64(x) && in_i64(y) && bg_ok && fg_ok,
        ..s
    }
}

/// The electrical position of a logical key name, (0, 0) where the layout
/// does not list it.
pub open spec fn electrical_of(layout: Map<Seq<char>, (u8, u8)>, name: Seq<char>) -> (u8, u8) {
    if layout.contains_key(name) {
        layout[name]
    } else {
        (0, 0)
    }
}

/// A keycap name places a key at the current position and moves right by its
/// width; the next key is a standard one again. Row and column count modulo
/// 256 and must each be a single base-36 digit.
pub open spec fn walk_name(layout: Map<Seq<char>, (u8, u8)>, s: KeyWalk, name: Seq<char>) -> KeyWalk {
    let r = s.row % 256;
    let c = s.col % 256;
    let lname = logical_name(r as int, c as int);
    let e = electrical_of(layout, lname);
    let key = KeyView {
        logical: (r as u8, c as u8),
        logical_name: lname,
        physical: Rect { x: s.x as i64, y: s.y as i64, w: s.w as i64, h: s.h as i64 },
        physical_name: name,
        electrical: e,
        electrical_name: decimal(e.0 as nat) + seq![',', ' '] + decimal(e.1 as nat),
        leds: Seq::empty(),
        led_name: Seq::empty(),
        pressed: false,
        scancodes: Seq::empty(),
        background_color: s.background,
        foreground_color: s.foreground,
    };
    KeyWalk {
        keys: s.keys.push(key),
        x: s.x + s.w,
        w: UNIT as int,
        h: UNIT as int,
        col: s.col + 1,
        ok: s.ok && r < 36 && c < 36 && in_i64(s.x + s.w),
        ..s
    }
}

/// One item of a row: a metadata entry or a keycap name.
pub open spec fn walk_item(layout: Map<Seq<char>, (u8, u8)>, s: KeyWalk, item: PhysicalKeyEnum) -> KeyWalk {
    match item {
        PhysicalKeyEnum::Meta(m) => walk_meta(s, m),
        PhysicalKeyEnum::Name(n) => walk_name(layout, s, n@),
    }
}

/// The items of a row, in order.
pub open spec fn walk_items(layout: Map<Seq<char>, (u8, u8)>, s: KeyWalk, items: Seq<PhysicalKeyEnum>) -> KeyWalk
    decreases items.len(),
{
    if items.len() == 0 {
        s
    } else {
        walk_item(layout, walk_items(layout, s, items.drop_last()), items.last())
    }
}

/// The end of a row goes back to the left edge, one standard key lower.
pub open spec fn end_row(s: KeyWalk) -> KeyWalk {
    KeyWalk { x: 0, y: s.y - UNIT, col: 0, row: s.row + 1, ok: s.ok && in_i64(s.y - UNIT), ..s }
}

/// Rows place their keys; layout-wide metadata places nothing.
pub open spec fn walk_entry(layout: Map<Seq<char>, (u8, u8)>, s: KeyWalk, e: PhysicalLayoutEntry) -> KeyWalk {
    match e {
        PhysicalLayoutEntry::Row(r) => end_row(walk_items(layout, s, r.0@)),
        PhysicalLayoutEntry::Meta(_) => s,
    }
}

/// The entries of a physical layout, in order.
pub open spec fn walk_entries(layout: Map<Seq<char>, (u8, u8)>, s: KeyWalk, es: Seq<PhysicalLayoutEntry>) -> KeyWalk
    decreases es.len(),
{
    if es.len() == 0 {
        s
    } else {
        walk_entry(layout, walk_entries(layout, s, es.drop_last()), es.last())
    }
}

proof fn lemma_items_ok_prefix(layout: Map<Seq<char>, (u8, u8)>, s: KeyWalk, items: Seq<PhysicalKeyEnum>, i: int)
    requires
        0 <= i <= items.len(),
        walk_items(layout, s, items).ok,
    ensures
        walk_items(layout, s, items.take(i)).ok,
    decreases items.len(),
{
    if i < items.len() {
        assert(items.drop_last().take(i) =~= items.take(i));
        lemma_items_ok_prefix(layout, s, items.drop_last(), i);
    } else {
        assert(items.take(i) =~= items);
    }
}

proof fn lemma_entries_ok_prefix(layout: Map<Seq<char>, (u8, u8)>, s: KeyWalk, es: Seq<PhysicalLayoutEntry>, i: int)
    requires
        0 <= i <= es.len(),
        walk_entries(layout, s, es).ok,
    ensures
        walk_entries(layout, s, es.take(i)).ok,
    decreases es.len(),
{
    if i < es.len() {
        assert(es.drop_last().take(i) =~= es.take(i));
        let p = walk_entries(layout, s, es.drop_last());
        match es.last() {
            PhysicalLayoutEntry::Row(r) => {
                lemma_items_ok_prefix(layout, p, r.0@, 0);
                assert(r.0@.take(0) =~= Seq::<PhysicalKeyEnum>::empty());
            },
            PhysicalLayoutEntry::Meta(_) => {},
        }
        lemma_entries_ok_prefix(layout, s, es.drop_last(), i);
    } else {
        assert(es.take(i) =~= es);
    }
}


/// The keycap names of a row, in order.
pub open spec fn row_names(items: Seq<PhysicalKeyEnum>) -> Seq<Seq<char>>
    decreases items.len(),
{
    if items.len() == 0 {
        Seq::empty()
    } else {
        let rest = row_names(items.drop_last());
        match items.last() {
            PhysicalKeyEnum::Name(n) => rest.push(n@),
            PhysicalKeyEnum::Meta(_) => rest,
        }
    }
}

/// The keycap names of a physical layout, row after row.
pub open spec fn layout_names(es: Seq<PhysicalLayoutEntry>) -> Seq<Seq<char>>
    decreases es.len(),
{
    if es.len() == 0 {
        Seq::empty()
    } else {
        layout_names(es.drop_last()) + match es.last() {
            PhysicalLayoutEntry::Row(r) => row_names(r.0@),
            PhysicalLayoutEntry::Meta(_) => Seq::empty(),
        }
    }
}

/// The keycap names of keys, in order.
pub open spec fn physical_names(keys: Seq<KeyView>) -> Seq<Seq<char>> {
    keys.map_values(|k: KeyView| k.physical_name)
}

proof fn lemma_items_names(layout: Map<Seq<char>, (u8, u8)>, s: KeyWalk, items: Seq<PhysicalKeyEnum>)
    ensures
        physical_names(walk_items(layout, s, items).keys) == physical_names(s.keys) + row_names(items),
    decreases items.len(),
{
    if items.len() == 0 {
        assert(physical_names(s.keys) + row_names(items) =~= physical_names(s.keys));
    } else {
        lemma_items_names(layout, s, items.drop_last());
        let p = walk_items(layout, s, items.drop_last());
        match items.last() {
            PhysicalKeyEnum::Name(n) => {
                assert(physical_names(walk_items(layout, s, items).keys) =~= physical_names(p.keys).push(n@));
                assert(physical_names(s.keys) + row_names(items) =~= (physical_names(s.keys) + row_names(
                    items.drop_last(),
                )).push(n@));
            },
            PhysicalKeyEnum::Meta(_) => {},
        }
    }
}

/// Placing a layout's keys gives one key per keycap name of physical.json,
/// in the order the names appear there, each carrying its name.
pub proof fn lemma_keys_follow_names(layout: Map<Seq<char>, (u8, u8)>, s: KeyWalk, es: Seq<PhysicalLayoutEntry>)
    ensures
        physical_names(walk_entries(layout, s, es).keys) == physical_names(s.keys) + layout_names(es),
    decreases es.len(),
{
    if es.len() == 0 {
        assert(physical_names(s.keys) + layout_names(es) =~= physical_names(s.keys));
    } else {
        lemma_keys_follow_names(layout, s, es.drop_last());
        let p = walk_entries(layout, s, es.drop_last());
        match es.last() {
            PhysicalLayoutEntry::Row(r) => {
                lemma_items_names(layout, p, r.0@);
                assert(physical_names(s.keys) + layout_names(es) =~= physical_names(s.keys) + layout_names(
                    es.drop_last(),
                ) + row_names(r.0@));
            },
            PhysicalLayoutEntry::Meta(_) => {
                assert(physical_names(s.keys) + layout_names(es) =~= physical_names(s.keys) + layout_names(
                    es.drop_last(),
                ));
            },
        }
    }
}


/// The items of an entry: a row's keycap names and metadata; none for
/// layout-wide metadata.
pub open spec fn row_items(e: PhysicalLayoutEntry) -> Seq<PhysicalKeyEnum> {
    match e {
        PhysicalLayoutEntry::Row(r) => r.0@,
        PhysicalLayoutEntry::Meta(_) => Seq::empty(),
    }
}

/// Item `j` of entry `e` is a keycap name, and so is the item right after
/// it in the same row: no metadata stands between the two keys.
pub open spec fn names_adjacent(es: Seq<PhysicalLayoutEntry>, e: int, j: int) -> bool {
    &&& 0 <= e < es.len()
    &&& 0 <= j && j + 1 < row_items(es[e]).len()
    &&& row_items(es[e])[j] is Name
    &&& row_items(es[e])[j + 1] is Name
}

/// The place among the placed keys of the key of item `j` of entry `e`:
/// the number of keycap names before it.
pub open spec fn key_index_of(es: Seq<PhysicalLayoutEntry>, e: int, j: int) -> int {
    (layout_names(es.take(e)).len() + row_names(row_items(es[e]).take(j)).len()) as int
}

/// `a` is the start of `b`.
pub open spec fn keys_prefix(a: Seq<KeyView>, b: Seq<KeyView>) -> bool {
    a.len() <= b.len() && forall|i: int| 0 <= i < a.len() ==> #[trigger] b[i] == a[i]
}

/// The size is always an `i64`; the position is one while the walk is well
/// defined.
pub open spec fn walk_fits(s: KeyWalk) -> bool {
    &&& in_i64(s.w)
    &&& in_i64(s.h)
    &&& s.ok ==> in_i64(s.x) && in_i64(s.y)
}

proof fn lemma_items_fit(layout: Map<Seq<char>, (u8, u8)>, s: KeyWalk, items: Seq<PhysicalKeyEnum>)
    requires
        walk_fits(s),
    ensures
        walk_fits(walk_items(layout, s, items)),
    decreases items.len(),
{
    if items.len() > 0 {
        lemma_items_fit(layout, s, items.drop_last());
    }
}

proof fn lemma_entries_fit(layout: Map<Seq<char>, (u8, u8)>, s: KeyWalk, es: Seq<PhysicalLayoutEntry>)
    requires
        walk_fits(s),
    ensures
        walk_fits(walk_entries(layout, s, es)),
    decreases es.len(),
{
    if es.len() > 0 {
        lemma_entries_fit(layout, s, es.drop_last());
        let p = walk_entries(layout, s, es.drop_last());
        match es.last() {
            PhysicalLayoutEntry::Row(r) => {
                lemma_items_fit(layout, p, r.0@);
            },
            PhysicalLayoutEntry::Meta(_) => {},
        }
    }
}

proof fn lemma_items_prefix(layout: Map<Seq<char>, (u8, u8)>, s: KeyWalk, items: Seq<PhysicalKeyEnum>, i: int)
    requires
        0 <= i <= items.len(),
    ensures
        keys_prefix(walk_items(layout, s, items.take(i)).keys, walk_items(layout, s, items).keys),
    decreases items.len(),
{
    if i == items.len() {
        assert(items.take(i) =~= items);
    } else {
        assert(items.drop_last().take(i) =~= items.take(i));
        lemma_items_prefix(layout, s, items.drop_last(), i);
    }
}

proof fn lemma_entries_prefix(layout: Map<Seq<char>, (u8, u8)>, s: KeyWalk, es: Seq<PhysicalLayoutEntry>, i: int)
    requires
        0 <= i <= es.len(),
    ensures
        keys_prefix(walk_entries(layout, s, es.take(i)).keys, walk_entries(layout, s, es).keys),
    decreases es.len(),
{
    if i == es.len() {
        assert(es.take(i) =~= es);
    } else {
        assert(es.drop_last().take(i) =~= es.take(i));
        lemma_entries_prefix(layout, s, es.drop_last(), i);
        let p = walk_entries(layout, s, es.drop_last());
        match es.last() {
            PhysicalLayoutEntry::Row(r) => {
                lemma_items_prefix(layout, p, r.0@, 0);
                assert(r.0@.take(0) =~= Seq::<PhysicalKeyEnum>::empty());
            },
            PhysicalLayoutEntry::Meta(_) => {},
        }
    }
}

/// After a keycap name, the next key of the same row, where no metadata
/// stands between them, is a standard key placed right after it: at the
/// same height, its left edge at the first key's right edge, one standard
/// key wide and high. `k` is the first key's place among the placed keys.
pub proof fn lemma_next_key_is_standard(layout: Map<Seq<char>, (u8, u8)>, es: Seq<PhysicalLayoutEntry>, e: int, j: int)
    requires
        walk_well_defined(layout, es),
        names_adjacent(es, e, j),
    ensures
        ({
            let keys = walk_entries(layout, walk_start(), es).keys;
            let k = key_index_of(es, e, j);
            &&& 0 <= k && k + 1 < keys.len()
            &&& keys[k].physical_name == row_items(es[e])[j]->Name_0@
            &&& keys[k + 1].physical_name == row_items(es[e])[j + 1]->Name_0@
            &&& keys[k + 1].physical.w == UNIT
            &&& keys[k + 1].physical.h == UNIT
            &&& keys[k + 1].physical.x == keys[k].physical.x + keys[k].physical.w
            &&& keys[k + 1].physical.y == keys[k].physical.y
        }),
{
    let start = walk_start();
    let s = walk_entries(layout, start, es.take(e));
    let items = row_items(es[e]);
    lemma_entries_fit(layout, start, es.take(e));
    lemma_keys_follow_names(layout, start, es.take(e));
    assert(start.keys.len() == 0);
    assert(physical_names(s.keys).len() == s.keys.len());
    assert(s.keys.len() == layout_names(es.take(e)).len()) by {
        assert(physical_names(start.keys) =~= Seq::<Seq<char>>::empty());
    }
    assert(es.take(e + 1).drop_last() =~= es.take(e));
    assert(es.take(e + 1).last() == es[e]);
    let row = walk_items(layout, s, items);
    assert(walk_entries(layout, start, es.take(e + 1)) == end_row(row));
    let p = walk_items(layout, s, items.take(j));
    lemma_items_fit(layout, s, items.take(j));
    lemma_items_names(layout, s, items.take(j));
    assert(physical_names(p.keys).len() == p.keys.len());
    let k = key_index_of(es, e, j);
    assert(p.keys.len() == k);
    assert(items.take(j + 1).drop_last() =~= items.take(j));
    assert(items.take(j + 1).last() == items[j]);
    assert(items.take(j + 2).drop_last() =~= items.take(j + 1));
    assert(items.take(j + 2).last() == items[j + 1]);
    let a = items[j]->Name_0@;
    let b = items[j + 1]->Name_0@;
    let q1 = walk_name(layout, p, a);
    let q = walk_items(layout, s, items.take(j + 2));
    assert(walk_items(layout, s, items.take(j + 1)) == q1);
    assert(q == walk_name(layout, q1, b));
    // the walk is well defined up to the second key
    lemma_entries_ok_prefix(layout, start, es, e + 1);
    assert(row.ok);
    lemma_items_ok_prefix(layout, s, items, j + 2);
    assert(q.ok && q1.ok && p.ok);
    // the two keys stay where they were placed
    lemma_items_prefix(layout, s, items, j + 2);
    lemma_entries_prefix(layout, start, es, e + 1);
    let keys = walk_entries(layout, start, es).keys;
    assert(q.keys[k] == keys[k]);
    assert(q.keys[k + 1] == keys[k + 1]);
    assert(q.keys[k].physical == (Rect { x: p.x as i64, y: p.y as i64, w: p.w as i64, h: p.h as i64 }));
    assert(q.keys[k + 1].physical == (Rect {
        x: (p.x + p.w) as i64,
        y: p.y as i64,
        w: UNIT as int as i64,
        h: UNIT as int as i64,
    }));
}

proof fn lemma_entries_left_edge(layout: Map<Seq<char>, (u8, u8)>, es: Seq<PhysicalLayoutEntry>)
    ensures
        walk_entries(layout, walk_start(), es).x == 0,
    decreases es.len(),
{
    if es.len() > 0 {
        lemma_entries_left_edge(layout, es.drop_last());
    }
}

/// A row whose first item is a keycap name places that key at the left
/// edge.
pub proof fn lemma_row_starts_at_left_edge(layout: Map<Seq<char>, (u8, u8)>, es: Seq<PhysicalLayoutEntry>, e: int)
    requires
        0 <= e < es.len(),
        row_items(es[e]).len() > 0,
        row_items(es[e])[0] is Name,
    ensures
        ({
            let keys = walk_entries(layout, walk_start(), es).keys;
            let k = key_index_of(es, e, 0);
            &&& 0 <= k < keys.len()
            &&& keys[k].physical_name == row_items(es[e])[0]->Name_0@
            &&& keys[k].physical.x == 0
        }),
{
    let start = walk_start();
    let s = walk_entries(layout, start, es.take(e));
    let items = row_items(es[e]);
    lemma_entries_left_edge(layout, es.take(e));
    lemma_keys_follow_names(layout, start, es.take(e));
    assert(physical_names(s.keys).len() == s.keys.len());
    assert(s.keys.len() == layout_names(es.take(e)).len()) by {
        assert(physical_names(start.keys) =~= Seq::<Seq<char>>::empty());
    }
    assert(items.take(0) =~= Seq::<PhysicalKeyEnum>::empty());
    assert(row_names(items.take(0)).len() == 0);
    let k = key_index_of(es, e, 0);
    assert(s.keys.len() == k);
    assert(es.take(e + 1).drop_last() =~= es.take(e));
    assert(es.take(e + 1).last() == es[e]);
    assert(items.take(1).drop_last() =~= items.take(0));
    assert(items.take(1).last() == items[0]);
    let q = walk_items(layout, s, items.take(1));
    assert(walk_items(layout, s, items.take(0)) == s);
    assert(q == walk_name(layout, s, items[0]->Name_0@));
    lemma_items_prefix(layout, s, items, 1);
    lemma_entries_prefix(layout, start, es, e + 1);
    assert(walk_entries(layout, start, es.take(e + 1)) == end_row(walk_items(layout, s, items)));
    let keys = walk_entries(layout, start, es).keys;
    assert(q.keys[k] == keys[k]);
    assert(q.keys[k].physical.x == 0int as i64);
}

/// Position `a` comes before position `b` reading row by row.
pub open spec fn comes_before(a: (int, int), b: (int, int)) -> bool {
    a.0 < b.0 || (a.0 == b.0 && a.1 < b.1)
}

/// A key's logical (row, column).
pub open spec fn logical_at(k: KeyView) -> (int, int) {
    (k.logical.0 as int, k.logical.1 as int)
}

/// The keys' logical positions strictly increase, row by row.
pub open spec fn logically_ordered(keys: Seq<KeyView>) -> bool {
    forall|i: int, j: int| 0 <= i < j < keys.len() ==> comes_before(logical_at(#[trigger] keys[i]), logical_at(#[trigger] keys[j]))
}

/// Every key's logical position comes before `pos`.
pub open spec fn all_before(keys: Seq<KeyView>, pos: (int, int)) -> bool {
    forall|i: int| 0 <= i < keys.len() ==> comes_before(logical_at(#[trigger] keys[i]), pos)
}

/// The number of rows of a physical layout.
pub open spec fn row_count(es: Seq<PhysicalLayoutEntry>) -> nat
    decreases es.len(),
{
    if es.len() == 0 {
        0
    } else {
        row_count(es.drop_last()) + if es.last() is Row { 1nat } else { 0nat }
    }
}

/// Every row of a physical layout has fewer than 256 keycap names.
pub open spec fn rows_below_256(es: Seq<PhysicalLayoutEntry>) -> bool {
    forall|i: int| 0 <= i < es.len() ==> (#[trigger] es[i] matches PhysicalLayoutEntry::Row(r) ==> row_names(r.0@).len() < 256)
}

proof fn lemma_items_ordered(layout: Map<Seq<char>, (u8, u8)>, s: KeyWalk, items: Seq<PhysicalKeyEnum>)
    requires
        logically_ordered(s.keys),
        all_before(s.keys, (s.row as int, s.col as int)),
        s.row < 256,
        s.col + row_names(items).len() <= 256,
    ensures
        logically_ordered(walk_items(layout, s, items).keys),
        all_before(walk_items(layout, s, items).keys, (s.row as int, walk_items(layout, s, items).col as int)),
        walk_items(layout, s, items).row == s.row,
        walk_items(layout, s, items).col == s.col + row_names(items).len(),
    decreases items.len(),
{
    if items.len() > 0 {
        lemma_items_ordered(layout, s, items.drop_last());
        let p = walk_items(layout, s, items.drop_last());
        match items.last() {
            PhysicalKeyEnum::Name(n) => {
                let t = walk_name(layout, p, n@);
                assert(p.row % 256 == p.row);
                assert(p.col % 256 == p.col);
                assert(logical_at(t.keys.last()) == (p.row as int, p.col as int));
                assert forall|i: int, j: int| 0 <= i < j < t.keys.len() implies comes_before(
                    logical_at(#[trigger] t.keys[i]),
                    logical_at(#[trigger] t.keys[j]),
                ) by {
                    if j < p.keys.len() {
                        assert(t.keys[i] == p.keys[i] && t.keys[j] == p.keys[j]);
                    } else {
                        assert(t.keys[i] == p.keys[i]);
                    }
                }
                assert forall|i: int| 0 <= i < t.keys.len() implies comes_before(
                    logical_at(#[trigger] t.keys[i]),
                    (s.row as int, t.col as int),
                ) by {
                    if i < p.keys.len() {
                        assert(t.keys[i] == p.keys[i]);
                    }
                }
            },
            PhysicalKeyEnum::Meta(_) => {},
        }
    }
}

proof fn lemma_entries_ordered(layout: Map<Seq<char>, (u8, u8)>, s: KeyWalk, es: Seq<PhysicalLayoutEntry>)
    requires
        logically_ordered(s.keys),
        all_before(s.keys, (s.row as int, 0)),
        s.col == 0,
        s.row + row_count(es) <= 256,
        rows_below_256(es),
    ensures
        logically_ordered(walk_entries(layout, s, es).keys),
        all_before(walk_entries(layout, s, es).keys, (walk_entries(layout, s, es).row as int, 0)),
        walk_entries(layout, s, es).col == 0,
        walk_entries(layout, s, es).row == s.row + row_count(es),
    decreases es.len(),
{
    if es.len() > 0 {
        let init = es.drop_last();
        assert forall|i: int| 0 <= i < init.len() implies (#[trigger] init[i] matches PhysicalLayoutEntry::Row(r)
            ==> row_names(r.0@).len() < 256) by {
            assert(init[i] == es[i]);
        }
        lemma_entries_ordered(layout, s, init);
        let p = walk_entries(layout, s, init);
        match es.last() {
            PhysicalLayoutEntry::Row(r) => {
                assert(es[es.len() - 1] == es.last());
                lemma_items_ordered(layout, p, r.0@);
                let q = walk_items(layout, p, r.0@);
                assert forall|i: int| 0 <= i < q.keys.len() implies comes_before(
                    logical_at(#[trigger] q.keys[i]),
                    (q.row as int + 1, 0),
                ) by {
                    assert(comes_before(logical_at(q.keys[i]), (p.row as int, q.col as int)));
                }
            },
            PhysicalLayoutEntry::Meta(_) => {},
        }
    }
}

/// In a physical layout of fewer than 256 rows, each of fewer than 256
/// keycap names, the keys' logical positions strictly increase row by row, so
/// no two keys share a logical position.
pub proof fn lemma_logical_positions_distinct(layout: Map<Seq<char>, (u8, u8)>, es: Seq<PhysicalLayoutEntry>)
    requires
        row_count(es) < 256,
        rows_below_256(es),
    ensures
        logically_ordered(walk_entries(layout, walk_start(), es).keys),
        forall|i: int, j: int|
            0 <= i < j < walk_entries(layout, walk_start(), es).keys.len() ==> (#[trigger] walk_entries(
                layout,
                walk_start(),
                es,
            ).keys[i]).logical != (#[trigger] walk_entries(layout, walk_start(), es).keys[j]).logical,
{
    lemma_entries_ordered(layout, walk_start(), es);
    let keys = walk_entries(layout, walk_start(), es).keys;
    assert forall|i: int, j: int| 0 <= i < j < keys.len() implies (#[trigger] keys[i]).logical != (#[trigger] keys[j]).logical by {
        assert(comes_before(logical_at(keys[i]), logical_at(keys[j])));
    }
}



/// Every key's logical row and column are single base-36 digits, and its
/// logical name is made of them.
pub open spec fn named_by_position(keys: Seq<KeyView>) -> bool {
    forall|i: int|
        0 <= i < keys.len() ==> (#[trigger] keys[i]).logical.0 < 36 && keys[i].logical.1 < 36
            && keys[i].logical_name == logical_name(keys[i].logical.0 as int, keys[i].logical.1 as int)
}

proof fn lemma_items_named(layout: Map<Seq<char>, (u8, u8)>, s: KeyWalk, items: Seq<PhysicalKeyEnum>)
    requires
        named_by_position(s.keys),
        walk_items(layout, s, items).ok,
    ensures
        named_by_position(walk_items(layout, s, items).keys),
    decreases items.len(),
{
    if items.len() > 0 {
        let p = walk_items(layout, s, items.drop_last());
        assert(p.ok);
        lemma_items_named(layout, s, items.drop_last());
        match items.last() {
            PhysicalKeyEnum::Name(n) => {
                let t = walk_name(layout, p, n@);
                assert forall|i: int| 0 <= i < t.keys.len() implies (#[trigger] t.keys[i]).logical.0 < 36
                    && t.keys[i].logical.1 < 36 && t.keys[i].logical_name == logical_name(
                    t.keys[i].logical.0 as int,
                    t.keys[i].logical.1 as int,
                ) by {
                    if i < p.keys.len() {
                        assert(t.keys[i] == p.keys[i]);
                    }
                }
            },
            PhysicalKeyEnum::Meta(_) => {},
        }
    }
}

proof fn lemma_keys_named_by_position(layout: Map<Seq<char>, (u8, u8)>, s: KeyWalk, es: Seq<PhysicalLayoutEntry>)
    requires
        named_by_position(s.keys),
        walk_entries(layout, s, es).ok,
    ensures
        named_by_position(walk_entries(layout, s, es).keys),
    decreases es.len(),
{
    if es.len() > 0 {
        let p = walk_entries(layout, s, es.drop_last());
        match es.last() {
            PhysicalLayoutEntry::Row(r) => {
                assert(walk_items(layout, p, r.0@).ok);
                if !p.ok {
                    lemma_items_keep_not_ok(layout, p, r.0@);
                }
                lemma_keys_named_by_position(layout, s, es.drop_last());
                lemma_items_named(layout, p, r.0@);
            },
            PhysicalLayoutEntry::Meta(_) => {
                lemma_keys_named_by_position(layout, s, es.drop_last());
            },
        }
    }
}

proof fn lemma_items_keep_not_ok(layout: Map<Seq<char>, (u8, u8)>, s: KeyWalk, items: Seq<PhysicalKeyEnum>)
    requires
        !s.ok,
    ensures
        !walk_items(layout, s, items).ok,
    decreases items.len(),
{
    if items.len() > 0 {
        lemma_items_keep_not_ok(layout, s, items.drop_last());
    }
}

/// The value of an upper-case base-36 digit.
pub open spec fn base36_value(c: char) -> int {
    if '0' <= c && c <= '9' {
        c as int - '0' as int
    } else {
        c as int - 'A' as int + 10
    }
}

proof fn lemma_base36_digits_read_back(i: int)
    requires
        0 <= i < 36,
    ensures
        base36_value(base36_upper_digits()[i]) == i,
{
}

/// In a well-defined layout of fewer than 256 rows, each of fewer than 256
/// keycap names, no two keys share a logical name.
pub proof fn lemma_logical_names_distinct(layout: Map<Seq<char>, (u8, u8)>, es: Seq<PhysicalLayoutEntry>)
    requires
        walk_well_defined(layout, es),
        row_count(es) < 256,
        rows_below_256(es),
    ensures
        forall|i: int, j: int|
            0 <= i < j < walk_entries(layout, walk_start(), es).keys.len() ==> (#[trigger] walk_entries(
                layout,
                walk_start(),
                es,
            ).keys[i]).logical_name != (#[trigger] walk_entries(layout, walk_start(), es).keys[j]).logical_name,
{
    lemma_logical_positions_distinct(layout, es);
    let keys = walk_entries(layout, walk_start(), es).keys;
    assert(named_by_position(walk_start().keys));
    lemma_keys_named_by_position(layout, walk_start(), es);
    assert forall|i: int, j: int| 0 <= i < j < keys.len() implies (#[trigger] keys[i]).logical_name
        != (#[trigger] keys[j]).logical_name by {
        let (a, b) = (keys[i].logical, keys[j].logical);
        lemma_base36_digits_read_back(a.0 as int);
        lemma_base36_digits_read_back(a.1 as int);
        lemma_base36_digits_read_back(b.0 as int);
        lemma_base36_digits_read_back(b.1 as int);
        if keys[i].logical_name == keys[j].logical_name {
            assert(keys[i].logical_name[1] == keys[j].logical_name[1]);
            assert(keys[i].logical_name[2] == keys[j].logical_name[2]);
        }
    }
}

/// Whether the walk over a physical layout is well defined: every color is
/// readable, every key's row and column is one base-36 digit, and positions
/// stay within `i64`.
pub open spec fn walk_well_defined(layout: Map<Seq<char>, (u8, u8)>, physical: Seq<PhysicalLayoutEntry>) -> bool {
    walk_entries(layout, walk_start(), physical).ok
}

/// The boards that have a layout, by model.
pub open spec fn layout_boards() -> Seq<Seq<char>> {
    seq![
        "system76/addw1"@,
        "system76/addw2"@,
        "system76/bonw14"@,
        "system76/darp5"@,
        "system76/darp6"@,
        "system76/gaze15"@,
        "system76/launch_alpha_1"@,
        "system76/launch_alpha_2"@,
        "system76/launch_1"@,
        "system76/lemp9"@,
        "system76/oryp5"@,
        "system76/oryp6"@,
    ]
}

/// The models of the boards that have a layout.
pub fn layouts() -> (v: Vec<&'static str>)
    ensures
        v@.map_values(|s: &str| s@) == layout_boards(),
{
    let v = vec![
        "system76/addw1",
        "system76/addw2",
        "system76/bonw14",
        "system76/darp5",
        "system76/darp6",
        "system76/gaze15",
        "system76/launch_alpha_1",
        "system76/launch_alpha_2",
        "system76/launch_1",
        "system76/lemp9",
        "system76/oryp5",
        "system76/oryp6",
    ];
    assert(v@.map_values(|s: &str| s@) =~= layout_boards());
    v
}

/// The lighting of one layer in a saved keymap: its mode and speed, where
/// one is set, its brightness, and its colour. Colours are given by number:
/// the holder of the keymap keeps the colour each number stands for.
#[derive(Clone, Copy, Debug)]
pub struct KeyMapLayer {
    pub mode: Option<(u8, u8)>,
    pub brightness: i32,
    pub color: usize,
}

/// A saved keymap: the board it belongs to; per logical key name, the
/// scancode names of its layers; per logical key name, the number of the
/// colour to give its LED, or none to turn it off; and the lighting of each
/// layer.
pub struct KeyMap {
    pub board: String,
    pub map: StrMap<Vec<String>>,
    pub key_leds: StrMap<Option<usize>>,
    pub layers: Vec<KeyMapLayer>,
}

/// A board's layout: its default keymap, the scancode of each scancode name
/// and the name of each scancode, its physical layout, and the electrical
/// position of each logical key name.
pub struct Layout {
    pub default: KeyMap,
    pub keymap: StrMap<u16>,
    pub scancode_names: HashMap<u16, String>,
    pub physical: PhysicalLayout,
    pub layout: StrMap<(u8, u8)>,
}

/// The base-36 digit of `n`, letters in upper case.
fn base36_upper_char(n: u8) -> (c: char)
    requires
        n < 36,
    ensures
        c == base36_upper_digits()[n as int],
{
    let digits: [char; 36] = [
        '0', '1', '2', '3', '4', '5', '6', '7', '8', '9', 'A', 'B', 'C', 'D', 'E', 'F', 'G', 'H',
        'I', 'J', 'K', 'L', 'M', 'N', 'O', 'P', 'Q', 'R', 'S', 'T', 'U', 'V', 'W', 'X', 'Y', 'Z',
    ];
    assert(digits@ =~= base36_upper_digits());
    digits[n as usize]
}

/// The color after a one-character marker, as in `#cccccc`.
pub fn read_marked_color(c: &str) -> (r: Option<Rgb>)
    ensures
        r == marked_color(c@),
{
    let len = c.unicode_len();
    if len == 0 {
        return None;
    }
    let first = c.get_char(0);
    if first as u32 >= 128 {
        return None;
    }
    let rest = c.substring_char(1, len);
    assert(rest@ =~= c@.drop_first());
    Rgb::parse(rest)
}

proof fn lemma_line_end_skip(t: Seq<char>, i: int)
    requires
        0 <= i <= t.len(),
        forall|j: int| 0 <= j < i ==> t[j] != '\n',
    ensures
        line_end(t, 0) == line_end(t, i),
    decreases i,
{
    if i > 0 {
        lemma_line_end_skip(t, i - 1);
    }
}

/// The first line of `t`, as `str::lines` gives it.
pub fn first_line_of(t: &str) -> (r: Option<&str>)
    ensures
        r matches Some(l) ==> first_line(t@) == Some(l@),
        r is None <==> first_line(t@) is None,
{
    let len = t.unicode_len();
    if len == 0 {
        return None;
    }
    let mut i: usize = 0;
    while i < len
        invariant
            len == t@.len(),
            i <= len,
            forall|j: int| 0 <= j < i ==> t@[j] != '\n',
        ensures
            i <= len,
            forall|j: int| 0 <= j < i ==> t@[j] != '\n',
            i < len ==> t@[i as int] == '\n',
        decreases len - i,
    {
        if t.get_char(i) == '\n' {
            break;
        }
        i = i + 1;
    }
    proof {
        lemma_line_end_skip(t@, i as int);
    }
    if i < len && i > 0 && t.get_char(i - 1) == '\r' {
        let l = t.substring_char(0, i - 1);
        assert(l@ =~= t@.take(i - 1));
        Some(l)
    } else {
        let l = t.substring_char(0, i);
        assert(l@ =~= t@.take(i as int));
        Some(l)
    }
}

/// The walk's state while keys are being placed.
struct Walker {
    row: usize,
    col: usize,
    x: i64,
    y: i64,
    w: i64,
    h: i64,
    background: Rgb,
    foreground: Rgb,
    keys: Vec<Key>,
}

impl Walker {
    /// This state is `s`, apart from `s.ok`.
    spec fn agrees(self, s: KeyWalk) -> bool {
        &&& self.row as nat == s.row
        &&& self.col as nat == s.col
        &&& self.x as int == s.x
        &&& self.y as int == s.y
        &&& self.w as int == s.w
        &&& self.h as int == s.h
        &&& self.background == s.background
        &&& self.foreground == s.foreground
        &&& self.keys@.map_values(|k: Key| k@) == s.keys
    }

    fn meta(&mut self, m: &PhysicalKeyMeta, Ghost(s): Ghost<KeyWalk>)
        requires
            old(self).agrees(s),
            walk_meta(s, *m).ok,
        ensures
            final(self).agrees(walk_meta(s, *m)),
    {
        self.x = self.x + m.x;
        self.y = self.y - m.y;
        match m.w {
            Some(w) => self.w = w,
            None => {},
        }
        match m.h {
            Some(h) => self.h = h,
            None => {},
        }
        match &m.c {
            Some(c) => {
                self.background = read_marked_color(c.as_str()).unwrap();
            },
            None => {},
        }
        match &m.t {
            Some(t) => match first_line_of(t.as_str()) {
                Some(l) => {
                    self.foreground = read_marked_color(l).unwrap();
                },
                None => {},
            },
            None => {},
        }
    }

    fn name(&mut self, layout: &StrMap<(u8, u8)>, name: &String, Ghost(s): Ghost<KeyWalk>)
        requires
            old(self).agrees(s),
            walk_name(layout@, s, name@).ok,
            old(self).col < usize::MAX,
        ensures
            final(self).agrees(walk_name(layout@, s, name@)),
    {
        let r: u8 = (self.row % 256) as u8;
        let c: u8 = (self.col % 256) as u8;
        let mut lname = String::new();
        push_char(&mut lname, 'K');
        push_char(&mut lname, base36_upper_char(r));
        push_char(&mut lname, base36_upper_char(c));
        assert(lname@ =~= logical_name(r as int, c as int));
        let electrical: (u8, u8) = match layout.get(lname.as_str()) {
            Some(e) => *e,
            None => (0, 0),
        };
        let mut ename = String::new();
        push_decimal(&mut ename, electrical.0 as u64);
        push_char(&mut ename, ',');
        push_char(&mut ename, ' ');
        push_decimal(&mut ename, electrical.1 as u64);
        assert(ename@ =~= decimal(electrical.0 as nat) + seq![',', ' '] + decimal(electrical.1 as nat));
        let key = Key {
            logical: (r, c),
            logical_name: lname,
            physical: Rect::new(self.x, self.y, self.w, self.h),
            physical_name: name.clone(),
            electrical,
            electrical_name: ename,
            leds: Vec::new(),
            led_name: String::new(),
            pressed: false,
            scancodes: Vec::new(),
            background_color: self.background,
            foreground_color: self.foreground,
        };
        let ghost kv = key@;
        assert(key@.scancodes =~= Seq::<(u16, Seq<char>)>::empty());
        assert(key@.leds =~= Seq::<u8>::empty());
        let ghost old_keys = self.keys@;
        self.keys.push(key);
        assert(self.keys@.map_values(|k: Key| k@) =~= old_keys.map_values(|k: Key| k@).push(kv));
        self.x = self.x + self.w;
        self.w = UNIT;
        self.h = UNIT;
        self.col = self.col + 1;
    }
}

/// A keymap.json list with its names taken as character sequences.
pub open spec fn entries_view(entries: Seq<(String, u16)>) -> Seq<(Seq<char>, u16)> {
    entries.map_values(|p: (String, u16)| (p.0@, p.1))
}

/// The scancode of each name in a keymap.json list; a later entry wins.
pub open spec fn keymap_of(entries: Seq<(Seq<char>, u16)>) -> Map<Seq<char>, u16>
    decreases entries.len(),
{
    if entries.len() == 0 {
        Map::empty()
    } else {
        keymap_of(entries.drop_last()).insert(entries.last().0, entries.last().1)
    }
}

/// The name of each scancode in a keymap.json list; a later entry wins.
pub open spec fn scancode_names_of(entries: Seq<(Seq<char>, u16)>) -> Map<u16, Seq<char>>
    decreases entries.len(),
{
    if entries.len() == 0 {
        Map::empty()
    } else {
        scancode_names_of(entries.drop_last()).insert(entries.last().1, entries.last().0)
    }
}

/// The scancode names of a map, taken as character sequences.
pub open spec fn names_view(m: Map<u16, String>) -> Map<u16, Seq<char>> {
    m.map_values(|s: String| s@)
}

/// The (scancode name, scancode) list that serde_json reads from a
/// keymap.json text, or `None` where the text is not such a list.
pub uninterp spec fn json_keymap_entries(text: Seq<char>) -> Option<Seq<(Seq<char>, u16)>>;

/// Reads a keymap.json text with `serde_json::from_str` into a list of
/// (scancode name, scancode) pairs. The contract names serde_json's result
/// and claims nothing else about it.
#[verifier::external_body]
fn read_keymap_entries(text: &str) -> (r: Option<Vec<(String, u16)>>)
    ensures
        r matches Some(v) ==> json_keymap_entries(text@) == Some(entries_view(v@)),
        r is None <==> json_keymap_entries(text@) is None,
{
    serde_json::from_str::<Vec<(String, u16)>>(text).ok()
}

/// The keymap (name to scancode) and scancode names (scancode to name) of a
/// keymap.json list.
pub fn keymap_from_entries(entries: Vec<(String, u16)>) -> (r: (StrMap<u16>, HashMap<u16, String>))
    ensures
        r.0@ == keymap_of(entries_view(entries@)),
        names_view(r.1@) == scancode_names_of(entries_view(entries@)),
{
    broadcast use vstd::std_specs::hash::group_hash_axioms;
    let ghost ev = entries_view(entries@);
    let mut keymap: StrMap<u16> = StrMap::new();
    let mut scancode_names: HashMap<u16, String> = HashMap::new();
    let mut i: usize = 0;
    assert(ev.take(0) =~= Seq::<(Seq<char>, u16)>::empty());
    assert(names_view(scancode_names@) =~= Map::<u16, Seq<char>>::empty());
    while i < entries.len()
        invariant
            ev == entries_view(entries@),
            i <= entries@.len(),
            keymap@ == keymap_of(ev.take(i as int)),
            names_view(scancode_names@) == scancode_names_of(ev.take(i as int)),
        decreases entries@.len() - i,
    {
        assert(ev.take(i + 1).drop_last() =~= ev.take(i as int));
        let name = entries[i].0.clone();
        let code = entries[i].1;
        let ghost before = scancode_names@;
        keymap.insert(name.clone(), code);
        scancode_names.insert(code, name);
        assert(names_view(scancode_names@) =~= names_view(before).insert(code, ev[i as int].0));
        i = i + 1;
    }
    assert(ev.take(i as int) =~= ev);
    (keymap, scancode_names)
}

/// Whether serde_json reads `text` as a keymap.json list.
pub open spec fn keymap_json_readable(text: Seq<char>) -> bool {
    json_keymap_entries(text) is Some
}

/// The keymap and scancode names of a keymap.json text that serde_json reads.
pub fn parse_keymap_json(keymap_json: &str) -> (r: (StrMap<u16>, HashMap<u16, String>))
    requires
        keymap_json_readable(keymap_json@),
    ensures
        r.0@ == keymap_of(json_keymap_entries(keymap_json@).unwrap()),
        names_view(r.1@) == scancode_names_of(json_keymap_entries(keymap_json@).unwrap()),
{
    let entries = read_keymap_entries(keymap_json).unwrap();
    keymap_from_entries(entries)
}

/// Whether serde_json reads `text` as a keymap.json list.
pub fn keymap_json_is_readable(text: &str) -> (b: bool)
    ensures
        b == keymap_json_readable(text@),
{
    read_keymap_entries(text).is_some()
}

/// Reads a keymap.json text; `None` where serde_json does not read it.
pub fn try_parse_keymap_json(keymap_json: &str) -> (r: Option<(StrMap<u16>, HashMap<u16, String>)>)
    ensures
        r is Some <==> keymap_json_readable(keymap_json@),
        r matches Some(p) ==> p.0@ == keymap_of(json_keymap_entries(keymap_json@).unwrap())
            && names_view(p.1@) == scancode_names_of(json_keymap_entries(keymap_json@).unwrap()),
{
    if keymap_json_is_readable(keymap_json) {
        Some(parse_keymap_json(keymap_json))
    } else {
        None
    }
}

impl Layout {
    /// A layout from its default keymap, its keymap.json text, the electrical
    /// position of each logical key name, and its physical layout.
    pub fn from_data(default: KeyMap, keymap_json: &str, layout: StrMap<(u8, u8)>, physical: PhysicalLayout) -> (l: Self)
        requires
            keymap_json_readable(keymap_json@),
        ensures
            l.keymap@ == keymap_of(json_keymap_entries(keymap_json@).unwrap()),
            names_view(l.scancode_names@) == scancode_names_of(json_keymap_entries(keymap_json@).unwrap()),
            l.layout@ == layout@,
            l.physical.0@ == physical.0@,
            l.default.board@ == default.board@,
            l.default.map@ == default.map@,
            l.default.key_leds@ == default.key_leds@,
            l.default.layers@ == default.layers@,
    {
        let (keymap, scancode_names) = parse_keymap_json(keymap_json);
        Layout { default, keymap, scancode_names, physical, layout }
    }

    /// As `from_data`, or `None` where serde_json does not read the
    /// keymap.json text.
    pub fn try_from_data(default: KeyMap, keymap_json: &str, layout: StrMap<(u8, u8)>, physical: PhysicalLayout) -> (r: Option<Self>)
        ensures
            r is Some <==> keymap_json_readable(keymap_json@),
            r matches Some(l) ==> {
                &&& l.keymap@ == keymap_of(json_keymap_entries(keymap_json@).unwrap())
                &&& names_view(l.scancode_names@) == scancode_names_of(json_keymap_entries(keymap_json@).unwrap())
                &&& l.layout@ == layout@
                &&& l.physical.0@ == physical.0@
                &&& l.default.board@ == default.board@
                &&& l.default.map@ == default.map@
                &&& l.default.key_leds@ == default.key_leds@
                &&& l.default.layers@ == default.layers@
            },
    {
        if keymap_json_is_readable(keymap_json) {
            Some(Self::from_data(default, keymap_json, layout, physical))
        } else {
            None
        }
    }

    /// Places every key of the physical layout: each row from the left edge,
    /// rows from the top down, with its logical name, electrical position and
    /// colors.
    pub fn keys(&self) -> (keys: Vec<Key>)
        requires
            walk_well_defined(self.layout@, self.physical.0@),
        ensures
            keys@.map_values(|k: Key| k@) == walk_entries(self.layout@, walk_start(), self.physical.0@).keys,
    {
        let ghost lm = self.layout@;
        let ghost es = self.physical.0@;
        let mut walker = Walker {
            row: 0,
            col: 0,
            x: 0,
            y: 0,
            w: UNIT,
            h: UNIT,
            background: Rgb::new(0xcc, 0xcc, 0xcc),
            foreground: Rgb::new(0x00, 0x00, 0x00),
            keys: Vec::new(),
        };
        assert(walker.keys@.map_values(|k: Key| k@) =~= Seq::<KeyView>::empty());
        assert(es.take(0) =~= Seq::<PhysicalLayoutEntry>::empty());
        let entries = &self.physical.0;
        let mut i: usize = 0;
        while i < entries.len()
            invariant
                lm == self.layout@,
                es == self.physical.0@,
                entries@ == es,
                i <= es.len(),
                walk_entries(lm, walk_start(), es).ok,
                walker.agrees(walk_entries(lm, walk_start(), es.take(i as int))),
                walker.col == 0,
                walker.row <= i,
            decreases es.len() - i,
        {
            let ghost si = walk_entries(lm, walk_start(), es.take(i as int));
            assert(es.take(i + 1).drop_last() =~= es.take(i as int));
            proof {
                lemma_entries_ok_prefix(lm, walk_start(), es, i + 1);
            }
            match &entries[i] {
                PhysicalLayoutEntry::Row(row) => {
                    let ghost items = row.0@;
                    assert(end_row(walk_items(lm, si, items)).ok);
                    assert(items.take(0) =~= Seq::<PhysicalKeyEnum>::empty());
                    let mut j: usize = 0;
                    while j < row.0.len()
                        invariant
                            lm == self.layout@,
                            items == row.0@,
                            j <= items.len(),
                            walk_items(lm, si, items).ok,
                            walker.agrees(walk_items(lm, si, items.take(j as int))),
                            walker.col <= j,
                            walker.row <= i,
                        decreases items.len() - j,
                    {
                        let ghost sj = walk_items(lm, si, items.take(j as int));
                        assert(items.take(j + 1).drop_last() =~= items.take(j as int));
                        proof {
                            lemma_items_ok_prefix(lm, si, items, j + 1);
                        }
                        match &row.0[j] {
                            PhysicalKeyEnum::Meta(m) => {
                                walker.meta(m, Ghost(sj));
                            },
                            PhysicalKeyEnum::Name(n) => {
                                walker.name(&self.layout, n, Ghost(sj));
                            },
                        }
                        j = j + 1;
                    }
                    assert(items.take(j as int) =~= items);
                    walker.x = 0;
                    walker.y = walker.y - UNIT;
                    walker.col = 0;
                    walker.row = walker.row + 1;
                },
                PhysicalLayoutEntry::Meta(_) => {},
            }
            i = i + 1;
        }
        assert(es.take(i as int) =~= es);
        walker.keys
    }
}


/// The position part of the walk's state, for checking a layout without
/// placing its keys.
struct PosWalker {
    row: usize,
    col: usize,
    x: i64,
    y: i64,
    w: i64,
    h: i64,
}

impl PosWalker {
    spec fn agrees(self, s: KeyWalk) -> bool {
        &&& self.row as nat == s.row
        &&& self.col as nat == s.col
        &&& self.x as int == s.x
        &&& self.y as int == s.y
        &&& self.w as int == s.w
        &&& self.h as int == s.h
    }

    /// Takes a metadata entry; false where that step is not well defined.
    fn meta(&mut self, m: &PhysicalKeyMeta, Ghost(s): Ghost<KeyWalk>) -> (ok: bool)
        requires
            old(self).agrees(s),
        ensures
            ok == walk_meta(s, *m).ok || !s.ok,
            ok ==> final(self).agrees(walk_meta(s, *m)),
    {
        let bg_ok = match &m.c {
            Some(c) => read_marked_color(c.as_str()).is_some(),
            None => true,
        };
        let fg_ok = match &m.t {
            Some(t) => match first_line_of(t.as_str()) {
                Some(l) => read_marked_color(l).is_some(),
                None => true,
            },
            None => true,
        };
        let nx = self.x.checked_add(m.x);
        let ny = self.y.checked_sub(m.y);
        match (nx, ny) {
            (Some(x), Some(y)) => {
                if !(bg_ok && fg_ok) {
                    return false;
                }
                self.x = x;
                self.y = y;
                match m.w {
                    Some(w) => self.w = w,
                    None => {},
                }
                match m.h {
                    Some(h) => self.h = h,
                    None => {},
                }
                true
            },
            _ => false,
        }
    }
}

impl Layout {
    /// Whether placing the keys is well defined (see `walk_well_defined`):
    /// every color reads, every key's row and column is one base-36 digit,
    /// and positions stay within `i64`.
    pub fn keys_well_defined(&self) -> (b: bool)
        ensures
            b == walk_well_defined(self.layout@, self.physical.0@),
    {
        let ghost lm = self.layout@;
        let ghost es = self.physical.0@;
        let mut p = PosWalker { row: 0, col: 0, x: 0, y: 0, w: UNIT, h: UNIT };
        assert(es.take(0) =~= Seq::<PhysicalLayoutEntry>::empty());
        let entries = &self.physical.0;
        let mut i: usize = 0;
        while i < entries.len()
            invariant
                lm == self.layout@,
                es == self.physical.0@,
                entries@ == es,
                i <= es.len(),
                walk_entries(lm, walk_start(), es.take(i as int)).ok,
                p.agrees(walk_entries(lm, walk_start(), es.take(i as int))),
                p.col == 0,
                p.row <= i,
            decreases es.len() - i,
        {
            let ghost si = walk_entries(lm, walk_start(), es.take(i as int));
            assert(es.take(i + 1).drop_last() =~= es.take(i as int));
            match &entries[i] {
                PhysicalLayoutEntry::Row(row) => {
                    let ghost items = row.0@;
                    assert(items.take(0) =~= Seq::<PhysicalKeyEnum>::empty());
                    let mut j: usize = 0;
                    while j < row.0.len()
                        invariant
                            lm == self.layout@,
                            es == self.physical.0@,
                            i < es.len(),
                            es[i as int] == PhysicalLayoutEntry::Row(*row),
                            si == walk_entries(lm, walk_start(), es.take(i as int)),
                            es.take(i + 1).drop_last() == es.take(i as int),
                            items == row.0@,
                            j <= items.len(),
                            si.ok,
                            walk_items(lm, si, items.take(j as int)).ok,
                            p.agrees(walk_items(lm, si, items.take(j as int))),
                            p.col <= j,
                            p.row <= i,
                        decreases items.len() - j,
                    {
                        let ghost sj = walk_items(lm, si, items.take(j as int));
                        assert(items.take(j + 1).drop_last() =~= items.take(j as int));
                        let step_ok = match &row.0[j] {
                            PhysicalKeyEnum::Meta(m) => p.meta(m, Ghost(sj)),
                            PhysicalKeyEnum::Name(_) => {
                                let r = p.row % 256;
                                let c = p.col % 256;
                                match p.x.checked_add(p.w) {
                                    Some(nx) => {
                                        if r < 36 && c < 36 {
                                            p.x = nx;
                                            p.w = UNIT;
                                            p.h = UNIT;
                                            p.col = p.col + 1;
                                            true
                                        } else {
                                            false
                                        }
                                    },
                                    None => false,
                                }
                            },
                        };
                        if !step_ok {
                            proof {
                                assert(!walk_items(lm, si, items.take(j + 1)).ok);
                                if walk_items(lm, si, items).ok {
                                    lemma_items_ok_prefix(lm, si, items, j + 1);
                                }
                                assert(!walk_entries(lm, walk_start(), es.take(i + 1)).ok);
                                if walk_entries(lm, walk_start(), es).ok {
                                    lemma_entries_ok_prefix(lm, walk_start(), es, i + 1);
                                }
                            }
                            return false;
                        }
                        j = j + 1;
                    }
                    assert(items.take(j as int) =~= items);
                    match p.y.checked_sub(UNIT) {
                        Some(ny) => {
                            p.y = ny;
                        },
                        None => {
                            proof {
                                assert(!walk_entries(lm, walk_start(), es.take(i + 1)).ok);
                                if walk_entries(lm, walk_start(), es).ok {
                                    lemma_entries_ok_prefix(lm, walk_start(), es, i + 1);
                                }
                            }
                            return false;
                        },
                    }
                    p.x = 0;
                    p.col = 0;
                    p.row = p.row + 1;
                },
                PhysicalLayoutEntry::Meta(_) => {},
            }
            i = i + 1;
        }
        assert(es.take(i as int) =~= es);
        true
    }

    /// The keys of the layout, as `keys` places them, or `None` where placing
    /// them is not well defined.
    pub fn try_keys(&self) -> (r: Option<Vec<Key>>)
        ensures
            r is Some <==> walk_well_defined(self.layout@, self.physical.0@),
            r matches Some(keys) ==> keys@.map_values(|k: Key| k@) == walk_entries(
                self.layout@,
                walk_start(),
                self.physical.0@,
            ).keys,
    {
        if self.keys_well_defined() {
            Some(self.keys())
        } else {
            None
        }
    }
}

} // verus!
