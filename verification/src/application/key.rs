//! One key of a keyboard: where it sits, what it is called and what it sends.

use vstd::prelude::*;

use crate::color::Rgb;

verus! {

/// Key widths and positions are counted in thousandths of a standard key.
pub const UNIT: i64 = 1000;

/// A rectangle in thousandths of a standard key width.
#[derive(Clone, Copy, Debug, PartialEq, Eq, Structural)]
pub struct Rect {
    pub x: i64,
    pub y: i64,
    pub w: i64,
    pub h: i64,
}

impl Rect {
    /// A rectangle at (`x`, `y`) of width `w` and height `h`.
    pub fn new(x: i64, y: i64, w: i64, h: i64) -> (r: Self)
        ensures
            r == (Rect { x, y, w, h }),
    {
        Rect { x, y, w, h }
    }
}

/// A key of a board: its logical, physical and electrical positions and names,
/// its LEDs, whether it is pressed, its scancode on each layer, and its colors.
#[derive(Debug)]
pub struct Key {
    /// Logical position (row, column)
    pub logical: (u8, u8),
    /// Logical name (something like K01, where 0 is the row and 1 is the column)
    pub logical_name: String,
    /// Physical position and size
    pub physical: Rect,
    /// Physical key name (what is printed on the keycap)
    pub physical_name: String,
    /// Electrical mapping (output, input)
    pub electrical: (u8, u8),
    /// Electrical name (output, input)
    pub electrical_name: String,
    /// LED indexes
    pub leds: Vec<u8>,
    /// LED name
    pub led_name: String,
    /// Key is currently pressed
    pub pressed: bool,
    /// Currently loaded scancodes and their names, one per layer
    pub scancodes: Vec<(u16, String)>,
    /// Background color
    pub background_color: Rgb,
    /// Foreground color
    pub foreground_color: Rgb,
}

/// A key with its strings taken as character sequences.
pub struct KeyView {
    pub logical: (u8, u8),
    pub logical_name: Seq<char>,
    pub physical: Rect,
    pub physical_name: Seq<char>,
    pub electrical: (u8, u8),
    pub electrical_name: Seq<char>,
    pub leds: Seq<u8>,
    pub led_name: Seq<char>,
    pub pressed: bool,
    pub scancodes: Seq<(u16, Seq<char>)>,
    pub background_color: Rgb,
    pub foreground_color: Rgb,
}

impl View for Key {
    type V = KeyView;

    open spec fn view(&self) -> KeyView {
        KeyView {
            logical: self.logical,
            logical_name: self.logical_name@,
            physical: self.physical,
            physical_name: self.physical_name@,
            electrical: self.electrical,
            electrical_name: self.electrical_name@,
            leds: self.leds@,
            led_name: self.led_name@,
            pressed: self.pressed,
            scancodes: self.scancodes@.map_values(|p: (u16, String)| (p.0, p.1@)),
            background_color: self.background_color,
            foreground_color: self.foreground_color,
        }
    }
}

} // verus!
