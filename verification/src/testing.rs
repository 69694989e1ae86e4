//! The keyboard tests: the colors that mark keys by their electrical
//! position after a switch test or while keys are pressed, and the USB ports
//! the benchmark reports on.

use vstd::prelude::*;

use crate::application::key::{Key, KeyView};
use crate::color::Rgb;
use crate::matrix::Matrix;
use crate::text::{decimal, push_decimal};
use vstd::string::StringExecFns;

verus! {

/// The colors of the keys a test marked, by electrical (row, column).
pub struct TestingColors {
    entries: Vec<((usize, usize), Rgb)>,
    contents: Ghost<Map<(usize, usize), Rgb>>,
}

/// `entries` lists each position of `contents` once, with its color.
spec fn cells_match(entries: Seq<((usize, usize), Rgb)>, contents: Map<(usize, usize), Rgb>) -> bool {
    &&& forall|i: int, j: int|
        #![trigger entries[i], entries[j]]
        0 <= i < j < entries.len() ==> entries[i].0 != entries[j].0
    &&& forall|i: int|
        #![trigger entries[i]]
        0 <= i < entries.len() ==> contents.contains_key(entries[i].0) && contents[entries[i].0] == entries[i].1
    &&& forall|k: (usize, usize)| #[trigger]
        contents.contains_key(k) ==> exists|i: int| 0 <= i < entries.len() && #[trigger] entries[i].0 == k
}

impl View for TestingColors {
    type V = Map<(usize, usize), Rgb>;

    closed spec fn view(&self) -> Map<(usize, usize), Rgb> {
        self.contents@
    }
}

impl TestingColors {
    #[verifier::type_invariant]
    spec fn inv(self) -> bool {
        cells_match(self.entries@, self.contents@)
    }

    /// No key marked.
    pub fn new() -> (c: Self)
        ensures
            c@ == Map::<(usize, usize), Rgb>::empty(),
    {
        TestingColors { entries: Vec::new(), contents: Ghost(Map::empty()) }
    }

    fn find(&self, cell: (usize, usize)) -> (r: Option<usize>)
        ensures
            r matches Some(i) ==> i < self.entries@.len() && self.entries@[i as int].0 == cell,
            r is None ==> !self@.contains_key(cell),
    {
        proof {
            use_type_invariant(self);
        }
        let mut i: usize = 0;
        while i < self.entries.len()
            invariant
                i <= self.entries@.len(),
                forall|j: int| 0 <= j < i ==> self.entries@[j].0 != cell,
            decreases self.entries@.len() - i,
        {
            if self.entries[i].0.0 == cell.0 && self.entries[i].0.1 == cell.1 {
                return Some(i);
            }
            i = i + 1;
        }
        None
    }

    /// The color of the key at `cell`, if it is marked.
    pub fn get(&self, cell: (usize, usize)) -> (r: Option<Rgb>)
        ensures
            r == (if self@.contains_key(cell) { Some(self@[cell]) } else { None::<Rgb> }),
    {
        proof {
            use_type_invariant(self);
        }
        match self.find(cell) {
            Some(i) => Some(self.entries[i].1),
            None => None,
        }
    }

    /// The number of marked keys.
    pub fn len(&self) -> (n: usize)
        ensures
            n == self@.len(),
    {
        proof {
            use_type_invariant(self);
            let es = self.entries@;
            let keys = es.map_values(|e: ((usize, usize), Rgb)| e.0);
            assert(self@.dom() =~= keys.to_set()) by {
                assert forall|k: (usize, usize)| self@.dom().contains(k) implies keys.to_set().contains(k) by {
                    let i = choose|i: int| 0 <= i < es.len() && #[trigger] es[i].0 == k;
                    assert(keys[i] == k);
                }
                assert forall|k: (usize, usize)| keys.to_set().contains(k) implies self@.dom().contains(k) by {
                    let i = choose|i: int| 0 <= i < keys.len() && keys[i] == k;
                    assert(es[i].0 == k);
                }
            }
            assert(keys.no_duplicates()) by {
                assert forall|i: int, j: int| 0 <= i < keys.len() && 0 <= j < keys.len() && i != j implies keys[i] != keys[j] by {
                    if i < j {
                        assert(es[i].0 != es[j].0);
                    } else {
                        assert(es[j].0 != es[i].0);
                    }
                }
            }
            keys.unique_seq_to_set();
        }
        self.entries.len()
    }

    /// Marks the key at `cell` with `color`.
    pub fn insert(&mut self, cell: (usize, usize), color: Rgb)
        ensures
            final(self)@ == old(self)@.insert(cell, color),
    {
        proof {
            use_type_invariant(&*self);
        }
        let ghost old_entries = self.entries@;
        let ghost new_contents = self.contents@.insert(cell, color);
        let found = self.find(cell);
        let mut taken = TestingColors { entries: Vec::new(), contents: Ghost(Map::empty()) };
        std::mem::swap(&mut taken, self);
        let TestingColors { entries: mut entries, contents: _ } = taken;
        match found {
            Some(i) => {
                entries.set(i, (cell, color));
                proof {
                    assert forall|a: int, b: int| 0 <= a < b < entries@.len() implies #[trigger] entries@[a].0
                        != #[trigger] entries@[b].0 by {
                        assert(old_entries[a].0 != old_entries[b].0);
                    }
                    assert forall|a: int| 0 <= a < entries@.len() implies new_contents.contains_key(
                        #[trigger] entries@[a].0,
                    ) && new_contents[entries@[a].0] == entries@[a].1 by {
                        if a != i {
                            if a < i {
                                assert(old_entries[a].0 != old_entries[i as int].0);
                            } else {
                                assert(old_entries[i as int].0 != old_entries[a].0);
                            }
                        }
                    }
                    assert forall|k: (usize, usize)| #[trigger] new_contents.contains_key(k) implies exists|j: int|
                        0 <= j < entries@.len() && #[trigger] entries@[j].0 == k by {
                        if k == cell {
                            assert(entries@[i as int].0 == k);
                        } else {
                            let j = choose|j: int| 0 <= j < old_entries.len() && #[trigger] old_entries[j].0 == k;
                            assert(entries@[j].0 == k);
                        }
                    }
                }
            },
            None => {
                entries.push((cell, color));
                proof {
                    assert forall|a: int, b: int| 0 <= a < b < entries@.len() implies #[trigger] entries@[a].0
                        != #[trigger] entries@[b].0 by {
                        if b < old_entries.len() {
                            assert(old_entries[a].0 != old_entries[b].0);
                        } else {
                            assert(old_entries[a] == entries@[a]);
                        }
                    }
                    assert forall|a: int| 0 <= a < entries@.len() implies new_contents.contains_key(
                        #[trigger] entries@[a].0,
                    ) && new_contents[entries@[a].0] == entries@[a].1 by {
                        if a < old_entries.len() {
                            assert(old_entries[a] == entries@[a]);
                        }
                    }
                    assert forall|k: (usize, usize)| #[trigger] new_contents.contains_key(k) implies exists|j: int|
                        0 <= j < entries@.len() && #[trigger] entries@[j].0 == k by {
                        if k == cell {
                            assert(entries@[old_entries.len() as int].0 == k);
                        } else {
                            let j = choose|j: int| 0 <= j < old_entries.len() && #[trigger] old_entries[j].0 == k;
                            assert(entries@[j].0 == k);
                        }
                    }
                }
            },
        }
        assert(cells_match(entries@, new_contents));
        *self = TestingColors { entries, contents: Ghost(new_contents) };
    }

    /// Unmarks the key at `cell`.
    pub fn remove(&mut self, cell: (usize, usize))
        ensures
            final(self)@ == old(self)@.remove(cell),
    {
        proof {
            use_type_invariant(&*self);
        }
        let ghost old_entries = self.entries@;
        let ghost new_contents = self.contents@.remove(cell);
        match self.find(cell) {
            Some(i) => {
                let mut taken = TestingColors { entries: Vec::new(), contents: Ghost(Map::empty()) };
                std::mem::swap(&mut taken, self);
                let TestingColors { entries: mut entries, contents: _ } = taken;
                entries.remove(i);
                proof {
                    assert(entries@ =~= old_entries.remove(i as int));
                    assert forall|a: int, b: int| 0 <= a < b < entries@.len() implies #[trigger] entries@[a].0
                        != #[trigger] entries@[b].0 by {
                        let oa = if a < i { a } else { a + 1 };
                        let ob = if b < i { b } else { b + 1 };
                        assert(entries@[a] == old_entries[oa]);
                        assert(entries@[b] == old_entries[ob]);
                        assert(old_entries[oa].0 != old_entries[ob].0);
                    }
                    assert forall|a: int| 0 <= a < entries@.len() implies new_contents.contains_key(
                        #[trigger] entries@[a].0,
                    ) && new_contents[entries@[a].0] == entries@[a].1 by {
                        let oa = if a < i { a } else { a + 1 };
                        assert(entries@[a] == old_entries[oa]);
                        if oa < i {
                            assert(old_entries[oa].0 != old_entries[i as int].0);
                        } else {
                            assert(old_entries[i as int].0 != old_entries[oa].0);
                        }
                    }
                    assert forall|k: (usize, usize)| #[trigger] new_contents.contains_key(k) implies exists|j: int|
                        0 <= j < entries@.len() && #[trigger] entries@[j].0 == k by {
                        let j = choose|j: int| 0 <= j < old_entries.len() && #[trigger] old_entries[j].0 == k;
                        assert(j != i);
                        if j < i {
                            assert(entries@[j].0 == k);
                        } else {
                            assert(entries@[j - 1].0 == k);
                        }
                    }
                }
                assert(cells_match(entries@, new_contents));
                *self = TestingColors { entries, contents: Ghost(new_contents) };
            },
            None => {
                assert(new_contents =~= self.contents@);
            },
        }
    }

    /// Unmarks every key.
    pub fn clear(&mut self)
        ensures
            final(self)@ == Map::<(usize, usize), Rgb>::empty(),
    {
        *self = TestingColors::new();
    }
}

/// What a switch test found: the switches that did not register, that stuck,
/// and that bounced.
pub struct Nelson {
    pub missing: Matrix,
    pub sticking: Matrix,
    pub bouncing: Matrix,
}

/// 255 where a matrix has the switch on, 0 where it is off or outside it.
pub open spec fn channel(m: Matrix, row: int, col: int) -> u8 {
    if m.cell(row, col) == Some(true) {
        255
    } else {
        0
    }
}

/// The color that marks a switch: red where it did not register, green where
/// it stuck, blue where it bounced, mixed where several hold; `None` where
/// none does.
pub open spec fn nelson_color(n: Nelson, row: int, col: int) -> Option<Rgb> {
    let c = Rgb { r: channel(n.missing, row, col), g: channel(n.sticking, row, col), b: channel(n.bouncing, row, col) };
    if c.r != 0 || c.g != 0 || c.b != 0 {
        Some(c)
    } else {
        None
    }
}

/// The marks after a switch test over `rows` by `cols` positions: each
/// position in that range carries its test color, or none where the switch
/// passed; positions outside keep their marks.
pub open spec fn after_nelson(before: Map<(usize, usize), Rgb>, n: Nelson, rows: nat, cols: nat) -> Map<
    (usize, usize),
    Rgb,
> {
    Map::new(
        |k: (usize, usize)|
            if k.0 < rows && k.1 < cols {
                nelson_color(n, k.0 as int, k.1 as int) is Some
            } else {
                before.contains_key(k)
            },
        |k: (usize, usize)|
            if k.0 < rows && k.1 < cols {
                nelson_color(n, k.0 as int, k.1 as int).unwrap()
            } else {
                before[k]
            },
    )
}

fn channel_of(m: &Matrix, row: usize, col: usize) -> (v: u8)
    ensures
        v == channel(*m, row as int, col as int),
{
    match m.get(row, col) {
        Some(true) => 255,
        _ => 0,
    }
}

/// The marks before position (`row`, `col`) of a row-by-row pass are done.
spec fn done_before(k: (usize, usize), rows: nat, cols: nat, row: nat, col: nat) -> bool {
    k.0 < rows && k.1 < cols && (k.0 < row || (k.0 == row && k.1 < col))
}

spec fn partly_after_nelson(before: Map<(usize, usize), Rgb>, n: Nelson, rows: nat, cols: nat, row: nat, col: nat) -> Map<
    (usize, usize),
    Rgb,
> {
    Map::new(
        |k: (usize, usize)|
            if done_before(k, rows, cols, row, col) {
                nelson_color(n, k.0 as int, k.1 as int) is Some
            } else {
                before.contains_key(k)
            },
        |k: (usize, usize)|
            if done_before(k, rows, cols, row, col) {
                nelson_color(n, k.0 as int, k.1 as int).unwrap()
            } else {
                before[k]
            },
    )
}

/// Marks each position of a switch test over `max_rows` by `max_cols` with
/// its test color, and unmarks the positions whose switch passed.
pub fn apply_nelson(colors: &mut TestingColors, nelson: &Nelson, max_rows: usize, max_cols: usize)
    ensures
        final(colors)@ == after_nelson(old(colors)@, *nelson, max_rows as nat, max_cols as nat),
{
    let ghost before = colors@;
    let mut row: usize = 0;
    assert(partly_after_nelson(before, *nelson, max_rows as nat, max_cols as nat, 0, 0) =~= before);
    while row < max_rows
        invariant
            row <= max_rows,
            colors@ == partly_after_nelson(before, *nelson, max_rows as nat, max_cols as nat, row as nat, 0),
        decreases max_rows - row,
    {
        let mut col: usize = 0;
        while col < max_cols
            invariant
                row < max_rows,
                col <= max_cols,
                colors@ == partly_after_nelson(before, *nelson, max_rows as nat, max_cols as nat, row as nat, col as nat),
            decreases max_cols - col,
        {
            let r = channel_of(&nelson.missing, row, col);
            let g = channel_of(&nelson.sticking, row, col);
            let b = channel_of(&nelson.bouncing, row, col);
            if r != 0 || g != 0 || b != 0 {
                colors.insert((row, col), Rgb::new(r, g, b));
            } else {
                colors.remove((row, col));
            }
            assert(colors@ =~= partly_after_nelson(
                before,
                *nelson,
                max_rows as nat,
                max_cols as nat,
                row as nat,
                (col + 1) as nat,
            ));
            col = col + 1;
        }
        assert(partly_after_nelson(before, *nelson, max_rows as nat, max_cols as nat, row as nat, max_cols as nat)
            =~= partly_after_nelson(before, *nelson, max_rows as nat, max_cols as nat, (row + 1) as nat, 0));
        row = row + 1;
    }
    assert(colors@ =~= after_nelson(before, *nelson, max_rows as nat, max_cols as nat));
}

/// The electrical position of a key, as the marks count it.
pub open spec fn key_cell(k: KeyView) -> (usize, usize) {
    (k.electrical.0 as usize, k.electrical.1 as usize)
}

/// The marks after pressed keys are shown: each key that is pressed marks
/// its electrical position red; other marks stay.
pub open spec fn after_pressed(before: Map<(usize, usize), Rgb>, keys: Seq<KeyView>) -> Map<(usize, usize), Rgb>
    decreases keys.len(),
{
    if keys.len() == 0 {
        before
    } else {
        let rest = after_pressed(before, keys.drop_last());
        let k = keys.last();
        if k.pressed {
            rest.insert(key_cell(k), Rgb { r: 255, g: 0, b: 0 })
        } else {
            rest
        }
    }
}


/// Showing the same test result twice leaves the marks that showing it once
/// leaves.
pub proof fn lemma_nelson_twice(before: Map<(usize, usize), Rgb>, n: Nelson, rows: nat, cols: nat)
    ensures
        after_nelson(after_nelson(before, n, rows, cols), n, rows, cols) == after_nelson(before, n, rows, cols),
{
    assert(after_nelson(after_nelson(before, n, rows, cols), n, rows, cols) =~= after_nelson(before, n, rows, cols));
}

/// Within the tested range, a position is marked exactly where its switch
/// failed, and then with red, green and blue for missing, sticking and
/// bouncing.
pub proof fn lemma_nelson_marks_failures(before: Map<(usize, usize), Rgb>, n: Nelson, rows: nat, cols: nat, cell: (usize, usize))
    requires
        cell.0 < rows,
        cell.1 < cols,
    ensures
        after_nelson(before, n, rows, cols).contains_key(cell) <==> (n.missing.cell(cell.0 as int, cell.1 as int)
            == Some(true) || n.sticking.cell(cell.0 as int, cell.1 as int) == Some(true) || n.bouncing.cell(
            cell.0 as int,
            cell.1 as int,
        ) == Some(true)),
        after_nelson(before, n, rows, cols).contains_key(cell) ==> after_nelson(before, n, rows, cols)[cell] == (Rgb {
            r: channel(n.missing, cell.0 as int, cell.1 as int),
            g: channel(n.sticking, cell.0 as int, cell.1 as int),
            b: channel(n.bouncing, cell.0 as int, cell.1 as int),
        }),
{
}

/// After pressed keys are marked, the position of every pressed key is red.
pub proof fn lemma_pressed_keys_red(before: Map<(usize, usize), Rgb>, keys: Seq<KeyView>)
    ensures
        forall|i: int|
            0 <= i < keys.len() && (#[trigger] keys[i]).pressed ==> after_pressed(before, keys).contains_key(
                key_cell(keys[i]),
            ) && after_pressed(before, keys)[key_cell(keys[i])] == (Rgb { r: 255, g: 0, b: 0 }),
    decreases keys.len(),
{
    if keys.len() > 0 {
        let init = keys.drop_last();
        lemma_pressed_keys_red(before, init);
        assert forall|i: int| 0 <= i < keys.len() && (#[trigger] keys[i]).pressed implies after_pressed(
            before,
            keys,
        ).contains_key(key_cell(keys[i])) && after_pressed(before, keys)[key_cell(keys[i])] == (Rgb {
            r: 255,
            g: 0,
            b: 0,
        }) by {
            if i < keys.len() - 1 {
                assert(init[i] == keys[i]);
            }
        }
    }
}

/// After pressed keys are marked, a position that no pressed key sits on
/// keeps its mark, or its lack of one.
pub proof fn lemma_unpressed_cell_kept(before: Map<(usize, usize), Rgb>, keys: Seq<KeyView>, cell: (usize, usize))
    requires
        forall|i: int| 0 <= i < keys.len() && (#[trigger] keys[i]).pressed ==> key_cell(keys[i]) != cell,
    ensures
        after_pressed(before, keys).contains_key(cell) == before.contains_key(cell),
        before.contains_key(cell) ==> after_pressed(before, keys)[cell] == before[cell],
    decreases keys.len(),
{
    if keys.len() > 0 {
        let init = keys.drop_last();
        assert forall|i: int| 0 <= i < init.len() && (#[trigger] init[i]).pressed implies key_cell(init[i]) != cell by {
            assert(init[i] == keys[i]);
        }
        lemma_unpressed_cell_kept(before, init, cell);
        if keys.last().pressed {
            assert(keys[keys.len() - 1] == keys.last());
        }
    }
}

/// Marks red the electrical position of every key that is pressed.
pub fn mark_pressed(colors: &mut TestingColors, keys: &Vec<Key>)
    ensures
        final(colors)@ == after_pressed(old(colors)@, keys@.map_values(|k: Key| k@)),
{
    let ghost before = colors@;
    let ghost kv = keys@.map_values(|k: Key| k@);
    let mut i: usize = 0;
    assert(kv.take(0) =~= Seq::<KeyView>::empty());
    while i < keys.len()
        invariant
            kv == keys@.map_values(|k: Key| k@),
            i <= kv.len(),
            colors@ == after_pressed(before, kv.take(i as int)),
        decreases kv.len() - i,
    {
        let k = &keys[i];
        assert(kv.take(i + 1).drop_last() =~= kv.take(i as int));
        assert(kv.take(i + 1).last() == k@);
        if k.pressed {
            let (row, col) = k.electrical;
            colors.insert((row as usize, col as usize), Rgb::new(255, 0, 0));
        }
        i = i + 1;
    }
    assert(kv.take(i as int) =~= kv);
}

/// The USB ports the benchmark reports on, in the order they are listed.
pub open spec fn bench_ports() -> Seq<Seq<char>> {
    seq![
        "USB 2.0: USB-A Left"@,
        "USB 2.0: USB-A Right"@,
        "USB 2.0: USB-C Left"@,
        "USB 2.0: USB-C Right"@,
        "USB 3.2 Gen 2: USB-A Left"@,
        "USB 3.2 Gen 2: USB-A Right"@,
        "USB 3.2 Gen 2: USB-C Left"@,
        "USB 3.2 Gen 2: USB-C Right"@,
    ]
}

/// The USB ports the benchmark reports on.
pub fn bench_port_names() -> (v: Vec<&'static str>)
    ensures
        v@.map_values(|s: &str| s@) == bench_ports(),
{
    let v = vec![
        "USB 2.0: USB-A Left",
        "USB 2.0: USB-A Right",
        "USB 2.0: USB-C Left",
        "USB 2.0: USB-C Right",
        "USB 3.2 Gen 2: USB-A Left",
        "USB 3.2 Gen 2: USB-A Right",
        "USB 3.2 Gen 2: USB-C Left",
        "USB 3.2 Gen 2: USB-C Right",
    ];
    assert(v@.map_values(|s: &str| s@) =~= bench_ports());
    v
}


/// A series of switch tests in progress: the run under way (counting from
/// 1) and the number of runs asked for.
#[derive(Clone, Copy, Debug)]
pub struct NelsonRun {
    pub run: i32,
    pub runs: i32,
}

/// How one run of the switch test ended: it could not run (with the
/// reason), or it ran and passed or failed.
pub enum NelsonOutcome {
    NotRun(String),
    Ran(bool),
}

/// "Test ", the run, "/", the number of runs.
pub open spec fn test_prefix(run: i32, runs: i32) -> Seq<char> {
    "Test "@ + decimal(run as nat) + "/"@ + decimal(runs as nat)
}

fn push_test_prefix(run: i32, runs: i32) -> (s: String)
    requires
        run >= 1,
        runs >= 1,
    ensures
        s@ == test_prefix(run, runs),
{
    proof {
        reveal_strlit("Test ");
        reveal_strlit("/");
    }
    let mut s = String::from_str("Test ");
    push_decimal(&mut s, run as u64);
    s.append("/");
    push_decimal(&mut s, runs as u64);
    s
}

impl NelsonRun {
    /// The first run of a series of `runs` runs; none where fewer than one
    /// run is asked for.
    pub fn start(runs: i32) -> (r: Option<NelsonRun>)
        ensures
            runs >= 1 ==> r == Some(NelsonRun { run: 1, runs }),
            runs < 1 ==> r is None,
    {
        if runs >= 1 {
            Some(NelsonRun { run: 1, runs })
        } else {
            None
        }
    }

    /// The message shown while the run is under way.
    pub fn running_message(&self) -> (s: String)
        requires
            1 <= self.run <= self.runs,
        ensures
            s@ == test_prefix(self.run, self.runs) + " running"@,
    {
        proof {
            reveal_strlit(" running");
        }
        let mut s = push_test_prefix(self.run, self.runs);
        s.append(" running");
        s
    }

    /// The message for how the run ended, and the next run: the series goes
    /// on only after a run that passed, and ends after the last run.
    pub fn finish(self, outcome: NelsonOutcome) -> (r: (String, Option<NelsonRun>))
        requires
            1 <= self.run <= self.runs,
        ensures
            match outcome {
                NelsonOutcome::NotRun(e) => r.0@ == test_prefix(self.run, self.runs) + " failed to run: "@ + e@
                    && r.1 is None,
                NelsonOutcome::Ran(true) => r.0@ == test_prefix(self.run, self.runs) + " successful"@ && r.1 == (
                if self.run < self.runs {
                    Some(NelsonRun { run: (self.run + 1) as i32, runs: self.runs })
                } else {
                    None
                }),
                NelsonOutcome::Ran(false) => r.0@ == test_prefix(self.run, self.runs) + " failed"@ && r.1 is None,
            },
    {
        proof {
            reveal_strlit(" failed to run: ");
            reveal_strlit(" successful");
            reveal_strlit(" failed");
        }
        let mut s = push_test_prefix(self.run, self.runs);
        match outcome {
            NelsonOutcome::NotRun(e) => {
                s.append(" failed to run: ");
                s.append(e.as_str());
                (s, None)
            },
            NelsonOutcome::Ran(true) => {
                s.append(" successful");
                let next = if self.run < self.runs {
                    Some(NelsonRun { run: self.run + 1, runs: self.runs })
                } else {
                    None
                };
                (s, next)
            },
            NelsonOutcome::Ran(false) => {
                s.append(" failed");
                (s, None)
            },
        }
    }
}

} // verus!
