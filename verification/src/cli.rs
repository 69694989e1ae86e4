//! The command-line tool's choice of board: which kind of keyboard it was
//! asked for, and which of the boards found it works on.

use vstd::prelude::*;

verus! {

/// The kind of keyboard asked for.
#[derive(Clone, Copy, Debug, PartialEq, Eq, Structural)]
pub enum Device {
    Any,
    Internal,
    Usb,
}

impl Device {
    /// The kind asked for by the `--internal` and `--usb` flags; the first
    /// wins where both are given.
    pub fn new(internal: bool, usb: bool) -> (d: Self)
        ensures
            d == (if internal {
                Device::Internal
            } else if usb {
                Device::Usb
            } else {
                Device::Any
            }),
    {
        if internal {
            Self::Internal
        } else if usb {
            Self::Usb
        } else {
            Self::Any
        }
    }
}

/// Whether a board, USB or built in, is of the kind asked for.
pub open spec fn board_matches(is_usb: bool, device: Device) -> bool {
    match device {
        Device::Any => true,
        Device::Internal => !is_usb,
        Device::Usb => is_usb,
    }
}

/// Whether a board, USB or built in, is of the kind asked for.
pub fn match_board(is_usb: bool, device: &Device) -> (b: bool)
    ensures
        b == board_matches(is_usb, *device),
{
    match device {
        Device::Any => true,
        Device::Internal => !is_usb,
        Device::Usb => is_usb,
    }
}

/// The positions, in order, of the boards among the first `upto` that are of
/// the kind asked for.
pub open spec fn matching(is_usb: Seq<bool>, device: Device, upto: int) -> Seq<usize>
    decreases upto,
{
    if upto <= 0 {
        Seq::empty()
    } else {
        let rest = matching(is_usb, device, upto - 1);
        if board_matches(is_usb[upto - 1], device) {
            rest.push((upto - 1) as usize)
        } else {
            rest
        }
    }
}

/// The positions of the boards of the kind asked for, given for each board
/// found whether it is a USB keyboard.
pub fn matching_boards(is_usb: &Vec<bool>, device: &Device) -> (v: Vec<usize>)
    ensures
        v@ == matching(is_usb@, *device, is_usb@.len() as int),
{
    let mut v: Vec<usize> = Vec::new();
    let mut i: usize = 0;
    while i < is_usb.len()
        invariant
            i <= is_usb@.len(),
            v@ == matching(is_usb@, *device, i as int),
        decreases is_usb@.len() - i,
    {
        if match_board(is_usb[i], device) {
            v.push(i);
        }
        i = i + 1;
    }
    v
}

/// What the tool does with the boards of the kind asked for: fail where
/// there is none, take the only one, or ask which of several.
pub enum BoardChoice {
    NoBoard,
    Only(usize),
    Ask(Vec<usize>),
}

/// What to do with the boards found, given for each whether it is a USB
/// keyboard.
pub fn choose_board(is_usb: &Vec<bool>, device: &Device) -> (c: BoardChoice)
    ensures
        ({
            let m = matching(is_usb@, *device, is_usb@.len() as int);
            match c {
                BoardChoice::NoBoard => m.len() == 0,
                BoardChoice::Only(i) => m.len() == 1 && i == m[0],
                BoardChoice::Ask(v) => m.len() > 1 && v@ == m,
            }
        }),
{
    let v = matching_boards(is_usb, device);
    if v.len() == 0 {
        BoardChoice::NoBoard
    } else if v.len() == 1 {
        BoardChoice::Only(v[0])
    } else {
        BoardChoice::Ask(v)
    }
}

} // verus!
