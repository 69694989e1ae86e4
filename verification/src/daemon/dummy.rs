//! A daemon of pretend boards that keeps everything in memory, for trying
//! the configurator without a keyboard.

use vstd::prelude::*;
use vstd::string::StringExecFns;
use std::collections::HashMap;

use super::{BoardId, Daemon};
use crate::color::Rgb;

verus! {

struct BoardDummy {
    name: String,
    keymap: HashMap<u32, u16>,
    color: Rgb,
    brightness: i32,
}

/// A daemon of pretend boards.
pub struct DaemonDummy {
    boards: Vec<BoardDummy>,
}

/// What a pretend board holds: its name, the scancode at each
/// (layer, output, input), its color and brightness.
pub struct BoardState {
    pub name: Seq<char>,
    pub keymap: Map<(u8, u8, u8), u16>,
    pub color: Rgb,
    pub brightness: i32,
}

/// The number under which a (layer, output, input) position is stored.
pub open spec fn key_code(k: (u8, u8, u8)) -> u32 {
    (k.0 as int * 65536 + k.1 as int * 256 + k.2 as int) as u32
}

proof fn lemma_key_code_injective(a: (u8, u8, u8), b: (u8, u8, u8))
    ensures
        key_code(a) == key_code(b) ==> a == b,
{
    let (a0, a1, a2) = (a.0 as int, a.1 as int, a.2 as int);
    let (b0, b1, b2) = (b.0 as int, b.1 as int, b.2 as int);
    if a0 * 65536 + a1 * 256 + a2 == b0 * 65536 + b1 * 256 + b2 {
        assert(a0 == b0 && a1 == b1 && a2 == b2) by (nonlinear_arith)
            requires
                a0 * 65536 + a1 * 256 + a2 == b0 * 65536 + b1 * 256 + b2,
                0 <= a0 < 256,
                0 <= a1 < 256,
                0 <= a2 < 256,
                0 <= b0 < 256,
                0 <= b1 < 256,
                0 <= b2 < 256,
        ;
    }
}

/// The keymap of a board, by position.
spec fn keymap_view(m: Map<u32, u16>) -> Map<(u8, u8, u8), u16> {
    Map::new(|k: (u8, u8, u8)| m.contains_key(key_code(k)), |k: (u8, u8, u8)| m[key_code(k)])
}

spec fn board_view(b: BoardDummy) -> BoardState {
    BoardState { name: b.name@, keymap: keymap_view(b.keymap@), color: b.color, brightness: b.brightness }
}

impl View for DaemonDummy {
    type V = Seq<BoardState>;

    closed spec fn view(&self) -> Seq<BoardState> {
        self.boards@.map_values(|b: BoardDummy| board_view(b))
    }
}

/// The error a pretend daemon gives for a board it does not have.
pub open spec fn no_board<T>(r: Result<T, String>) -> bool {
    r matches Err(e) && e@ == "No board"@
}

/// The scancode stored at a position, 0 where none was stored.
pub open spec fn stored_scancode(b: BoardState, k: (u8, u8, u8)) -> u16 {
    if b.keymap.contains_key(k) {
        b.keymap[k]
    } else {
        0
    }
}

/// The boards of a daemon made from these names: each with its name, no
/// scancodes stored, color (0, 0, 0) and brightness 0.
pub open spec fn fresh_boards(names: Seq<String>) -> Seq<BoardState> {
    names.map_values(
        |n: String|
            BoardState {
                name: n@,
                keymap: Map::empty(),
                color: Rgb { r: 0, g: 0, b: 0 },
                brightness: 0,
            },
    )
}

fn no_board_error() -> (e: String)
    ensures
        e@ == "No board"@,
{
    String::from_str("No board")
}

impl DaemonDummy {
    /// A daemon with one pretend board of each name; see `fresh_boards`.
    pub fn new(board_names: Vec<String>) -> (d: Self)
        ensures
            d@ == fresh_boards(board_names@),
    {
        let mut boards: Vec<BoardDummy> = Vec::new();
        let mut i: usize = 0;
        while i < board_names.len()
            invariant
                i <= board_names@.len(),
                boards@.map_values(|b: BoardDummy| board_view(b)) == fresh_boards(board_names@.take(i as int)),
            decreases board_names@.len() - i,
        {
            let b = BoardDummy {
                name: board_names[i].clone(),
                keymap: HashMap::new(),
                color: Rgb::new(0, 0, 0),
                brightness: 0,
            };
            assert(keymap_view(b.keymap@) =~= Map::empty());
            let ghost bv = board_view(b);
            assert(bv == fresh_boards(board_names@.take(i + 1))[i as int]);
            let ghost before = boards@;
            boards.push(b);
            assert(fresh_boards(board_names@.take(i + 1)) =~= fresh_boards(board_names@.take(i as int)).push(bv));
            assert(boards@.map_values(|b: BoardDummy| board_view(b)) =~= fresh_boards(board_names@.take(i + 1)));
            i = i + 1;
        }
        assert(board_names@.take(i as int) =~= board_names@);
        DaemonDummy { boards }
    }

    fn has_board(&self, board: BoardId) -> (b: bool)
        ensures
            b == (board.0 < self@.len()),
    {
        board.0 < self.boards.len()
    }

    /// The board `board`, or the error for a board that is not there.
    fn board(&self, board: BoardId) -> (r: Result<&BoardDummy, String>)
        ensures
            match r {
                Ok(b) => board.0 < self@.len() && board_view(*b) == self@[board.0 as int],
                Err(e) => board.0 >= self@.len() && e@ == "No board"@,
            },
    {
        if board.0 < self.boards.len() {
            Ok(&self.boards[board.0])
        } else {
            Err(no_board_error())
        }
    }
}

proof fn lemma_keymap_view_insert(m: Map<u32, u16>, k: (u8, u8, u8), v: u16)
    ensures
        keymap_view(m.insert(key_code(k), v)) =~= keymap_view(m).insert(k, v),
{
    assert forall|kk: (u8, u8, u8)| #[trigger] keymap_view(m.insert(key_code(k), v)).contains_key(kk)
        == keymap_view(m).insert(k, v).contains_key(kk) by {
        lemma_key_code_injective(kk, k);
    }
    assert forall|kk: (u8, u8, u8)| #[trigger] keymap_view(m.insert(key_code(k), v)).contains_key(kk)
        implies keymap_view(m.insert(key_code(k), v))[kk] == keymap_view(m).insert(k, v)[kk] by {
        lemma_key_code_injective(kk, k);
    }
}

fn key_code_of(layer: u8, output: u8, input: u8) -> (c: u32)
    ensures
        c == key_code((layer, output, input)),
{
    layer as u32 * 65536 + output as u32 * 256 + input as u32
}

impl Daemon for DaemonDummy {
    open spec fn boards_result(&self, r: Result<Vec<BoardId>, String>) -> bool {
        r matches Ok(v) && v@ == Seq::new(self@.len(), |i: int| BoardId(i as usize))
    }

    open spec fn model_result(&self, board: BoardId, r: Result<String, String>) -> bool {
        if board.0 < self@.len() {
            r matches Ok(s) && s@ == self@[board.0 as int].name
        } else {
            no_board(r)
        }
    }

    open spec fn is_fake_result(&self, r: bool) -> bool {
        r
    }

    open spec fn keymap_get_result(&self, board: BoardId, layer: u8, output: u8, input: u8, r: Result<u16, String>) -> bool {
        if board.0 < self@.len() {
            r == Ok::<u16, String>(stored_scancode(self@[board.0 as int], (layer, output, input)))
        } else {
            no_board(r)
        }
    }

    open spec fn keymap_set_step(
        pre: Self,
        post: Self,
        board: BoardId,
        layer: u8,
        output: u8,
        input: u8,
        value: u16,
        r: Result<(), String>,
    ) -> bool {
        if board.0 < pre@.len() {
            let b = pre@[board.0 as int];
            &&& r is Ok
            &&& post@ == pre@.update(
                board.0 as int,
                BoardState { keymap: b.keymap.insert((layer, output, input), value), ..b },
            )
        } else {
            no_board(r) && post@ == pre@
        }
    }

    open spec fn color_result(&self, board: BoardId, r: Result<Rgb, String>) -> bool {
        if board.0 < self@.len() {
            r == Ok::<Rgb, String>(self@[board.0 as int].color)
        } else {
            no_board(r)
        }
    }

    open spec fn set_color_step(pre: Self, post: Self, board: BoardId, color: Rgb, r: Result<(), String>) -> bool {
        if board.0 < pre@.len() {
            let b = pre@[board.0 as int];
            r is Ok && post@ == pre@.update(board.0 as int, BoardState { color, ..b })
        } else {
            no_board(r) && post@ == pre@
        }
    }

    open spec fn max_brightness_result(&self, board: BoardId, r: Result<i32, String>) -> bool {
        r == Ok::<i32, String>(100)
    }

    open spec fn brightness_result(&self, board: BoardId, r: Result<i32, String>) -> bool {
        if board.0 < self@.len() {
            r == Ok::<i32, String>(self@[board.0 as int].brightness)
        } else {
            no_board(r)
        }
    }

    open spec fn set_brightness_step(pre: Self, post: Self, board: BoardId, brightness: i32, r: Result<(), String>) -> bool {
        if board.0 < pre@.len() {
            let b = pre@[board.0 as int];
            r is Ok && post@ == pre@.update(board.0 as int, BoardState { brightness, ..b })
        } else {
            no_board(r) && post@ == pre@
        }
    }

    open spec fn exit_step(pre: Self, post: Self, r: Result<(), String>) -> bool {
        r is Ok && post@ == pre@
    }

    fn boards(&self) -> (r: Result<Vec<BoardId>, String>) {
        let mut v: Vec<BoardId> = Vec::new();
        let n = self.boards.len();
        let mut i: usize = 0;
        while i < n
            invariant
                n == self@.len(),
                i <= n,
                v@ == Seq::new(i as nat, |j: int| BoardId(j as usize)),
            decreases n - i,
        {
            v.push(BoardId(i));
            i = i + 1;
            assert(v@ =~= Seq::new(i as nat, |j: int| BoardId(j as usize)));
        }
        Ok(v)
    }

    fn model(&self, board: BoardId) -> (r: Result<String, String>) {
        match self.board(board) {
            Ok(b) => Ok(b.name.clone()),
            Err(e) => Err(e),
        }
    }

    fn is_fake(&self) -> (r: bool) {
        true
    }

    fn keymap_get(&self, board: BoardId, layer: u8, output: u8, input: u8) -> (r: Result<u16, String>) {
        broadcast use vstd::std_specs::hash::group_hash_axioms;
        match self.board(board) {
            Ok(b) => {
                let code = key_code_of(layer, output, input);
                match b.keymap.get(&code) {
                    Some(v) => Ok(*v),
                    None => Ok(0),
                }
            },
            Err(e) => Err(e),
        }
    }

    fn keymap_set(&mut self, board: BoardId, layer: u8, output: u8, input: u8, value: u16) -> (r: Result<(), String>) {
        broadcast use vstd::std_specs::hash::group_hash_axioms;
        if self.has_board(board) {
            let code = key_code_of(layer, output, input);
            let ghost m = self.boards@[board.0 as int].keymap@;
            self.boards[board.0].keymap.insert(code, value);
            proof {
                lemma_keymap_view_insert(m, (layer, output, input), value);
            }
            assert(self@ =~= old(self)@.update(
                board.0 as int,
                BoardState { keymap: old(self)@[board.0 as int].keymap.insert((layer, output, input), value), ..old(self)@[board.0 as int] },
            ));
            Ok(())
        } else {
            Err(no_board_error())
        }
    }

    fn color(&self, board: BoardId) -> (r: Result<Rgb, String>) {
        match self.board(board) {
            Ok(b) => Ok(b.color),
            Err(e) => Err(e),
        }
    }

    fn set_color(&mut self, board: BoardId, color: Rgb) -> (r: Result<(), String>) {
        if self.has_board(board) {
            self.boards[board.0].color = color;
            assert(self@ =~= old(self)@.update(board.0 as int, BoardState { color, ..old(self)@[board.0 as int] }));
            Ok(())
        } else {
            Err(no_board_error())
        }
    }

    fn max_brightness(&self, _board: BoardId) -> (r: Result<i32, String>) {
        Ok(100)
    }

    fn brightness(&self, board: BoardId) -> (r: Result<i32, String>) {
        match self.board(board) {
            Ok(b) => Ok(b.brightness),
            Err(e) => Err(e),
        }
    }

    fn set_brightness(&mut self, board: BoardId, brightness: i32) -> (r: Result<(), String>) {
        if self.has_board(board) {
            self.boards[board.0].brightness = brightness;
            assert(self@ =~= old(self)@.update(board.0 as int, BoardState { brightness, ..old(self)@[board.0 as int] }));
            Ok(())
        } else {
            Err(no_board_error())
        }
    }

    fn exit(&mut self) -> (r: Result<(), String>) {
        Ok(())
    }
}

/// Reading a position right after storing a scancode there gives that
/// scancode; every other position, on every board, reads as it did before.
pub proof fn lemma_keymap_read_after_write(
    pre: DaemonDummy,
    post: DaemonDummy,
    board: BoardId,
    layer: u8,
    output: u8,
    input: u8,
    value: u16,
    r: Result<(), String>,
    other: BoardId,
    k: (u8, u8, u8),
    got: Result<u16, String>,
)
    requires
        DaemonDummy::keymap_set_step(pre, post, board, layer, output, input, value, r),
        board.0 < pre@.len(),
    ensures
        r is Ok,
        post.keymap_get_result(board, layer, output, input, Ok(value)),
        other != board || k != (layer, output, input) ==> (post.keymap_get_result(other, k.0, k.1, k.2, got)
            <==> pre.keymap_get_result(other, k.0, k.1, k.2, got)),
{
}

/// Reading a board's color or brightness right after setting it gives what
/// was set; the other boards read as before.
pub proof fn lemma_color_brightness_read_after_write(
    pre: DaemonDummy,
    mid: DaemonDummy,
    post: DaemonDummy,
    board: BoardId,
    color: Rgb,
    brightness: i32,
    r1: Result<(), String>,
    r2: Result<(), String>,
    other: BoardId,
    c: Result<Rgb, String>,
    b: Result<i32, String>,
)
    requires
        DaemonDummy::set_color_step(pre, mid, board, color, r1),
        DaemonDummy::set_brightness_step(mid, post, board, brightness, r2),
        board.0 < pre@.len(),
    ensures
        post.color_result(board, Ok(color)),
        post.brightness_result(board, Ok(brightness)),
        other != board ==> (post.color_result(other, c) <==> pre.color_result(other, c)),
        other != board ==> (post.brightness_result(other, b) <==> pre.brightness_result(other, b)),
{
}

/// A board that is not there is refused by every operation that names it,
/// and refusing changes nothing.
pub proof fn lemma_missing_board_refused(
    pre: DaemonDummy,
    post: DaemonDummy,
    board: BoardId,
    layer: u8,
    output: u8,
    input: u8,
    value: u16,
    r: Result<(), String>,
)
    requires
        board.0 >= pre@.len(),
        DaemonDummy::keymap_set_step(pre, post, board, layer, output, input, value, r),
    ensures
        no_board(r),
        post@ == pre@,
        forall|g: Result<u16, String>| #[trigger] pre.keymap_get_result(board, layer, output, input, g) ==> no_board(g),
        forall|m: Result<String, String>| #[trigger] pre.model_result(board, m) ==> no_board(m),
{
}

/// A new daemon's boards have their names, read 0 at every position, and are
/// black at brightness 0.
pub proof fn lemma_new_boards_are_blank(d: DaemonDummy, names: Seq<String>, board: BoardId, k: (u8, u8, u8))
    requires
        d@ == fresh_boards(names),
        board.0 < names.len(),
    ensures
        d.keymap_get_result(board, k.0, k.1, k.2, Ok(0)),
        d.color_result(board, Ok(Rgb { r: 0, g: 0, b: 0 })),
        d.brightness_result(board, Ok(0)),
        d@[board.0 as int].name == names[board.0 as int]@,
{
}

} // verus!
