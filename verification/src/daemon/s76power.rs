//! The daemon that reaches built-in keyboards through the system power
//! daemon: which of its objects are keyboards, and what a keyboard's
//! properties give where they are missing or unreadable.

use vstd::prelude::*;

use crate::color::{rgb_from_hex, Rgb};
use crate::text::{starts_with, str_starts_with};

verus! {

/// The object paths under which the power daemon lists keyboards start with
/// this.
pub open spec fn keyboard_path_prefix() -> Seq<char> {
    "/com/system76/PowerDaemon/keyboard"@
}

/// Whether an object of the power daemon is a keyboard, by its path.
pub fn is_keyboard_path(path: &str) -> (b: bool)
    ensures
        b == starts_with(path@, keyboard_path_prefix()),
{
    str_starts_with(path, "/com/system76/PowerDaemon/keyboard")
}

/// A keyboard's model from its `name` property: the empty text where it has
/// none.
pub fn model_from_property(name: Option<String>) -> (m: String)
    ensures
        m@ == match name {
            Some(n) => n@,
            None => Seq::<char>::empty(),
        },
{
    match name {
        Some(n) => n,
        None => String::new(),
    }
}

/// A keyboard's color from its `color` property: black where it has none
/// or it is not six hexadecimal digits.
pub fn color_from_property(color: Option<&str>) -> (c: Rgb)
    ensures
        c == match color {
            Some(t) => match rgb_from_hex(t@) {
                Some(v) => v,
                None => Rgb { r: 0, g: 0, b: 0 },
            },
            None => Rgb { r: 0, g: 0, b: 0 },
        },
{
    match color {
        Some(t) => match Rgb::parse(t) {
            Some(v) => v,
            None => Rgb::new(0, 0, 0),
        },
        None => Rgb::new(0, 0, 0),
    }
}

/// A keyboard's highest brightness from its `max_brightness` property: 100
/// where it has none.
pub fn max_brightness_from_property(max_brightness: Option<i32>) -> (b: i32)
    ensures
        b == match max_brightness {
            Some(v) => v,
            None => 100,
        },
{
    match max_brightness {
        Some(v) => v,
        None => 100,
    }
}

/// A keyboard's brightness from its `brightness` property: 0 where it has
/// none.
pub fn brightness_from_property(brightness: Option<i32>) -> (b: i32)
    ensures
        b == match brightness {
            Some(v) => v,
            None => 0,
        },
{
    match brightness {
        Some(v) => v,
        None => 0,
    }
}

} // verus!
