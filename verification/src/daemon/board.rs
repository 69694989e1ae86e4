//! One board of a daemon: the daemon's operations with the board filled in.

use vstd::prelude::*;

use super::{BoardId, Daemon};
use crate::color::Rgb;

verus! {

/// A board of a daemon: the daemon and the board.
pub struct DaemonBoard<D: Daemon>(pub D, pub BoardId);

impl<D: Daemon> DaemonBoard<D> {
    /// The board's model.
    pub fn model(&self) -> (r: Result<String, String>)
        ensures
            self.0.model_result(self.1, r),
    {
        self.0.model(self.1)
    }

    /// The scancode at (layer, output, input).
    pub fn keymap_get(&self, layer: u8, output: u8, input: u8) -> (r: Result<u16, String>)
        ensures
            self.0.keymap_get_result(self.1, layer, output, input, r),
    {
        self.0.keymap_get(self.1, layer, output, input)
    }

    /// Stores a scancode at (layer, output, input).
    pub fn keymap_set(&mut self, layer: u8, output: u8, input: u8, value: u16) -> (r: Result<(), String>)
        ensures
            final(self).1 == old(self).1,
            D::keymap_set_step(old(self).0, final(self).0, old(self).1, layer, output, input, value, r),
    {
        self.0.keymap_set(self.1, layer, output, input, value)
    }

    /// The board's color.
    pub fn color(&self) -> (r: Result<Rgb, String>)
        ensures
            self.0.color_result(self.1, r),
    {
        self.0.color(self.1)
    }

    /// Sets the board's color.
    pub fn set_color(&mut self, color: Rgb) -> (r: Result<(), String>)
        ensures
            final(self).1 == old(self).1,
            D::set_color_step(old(self).0, final(self).0, old(self).1, color, r),
    {
        self.0.set_color(self.1, color)
    }

    /// The board's highest brightness.
    pub fn max_brightness(&self) -> (r: Result<i32, String>)
        ensures
            self.0.max_brightness_result(self.1, r),
    {
        self.0.max_brightness(self.1)
    }

    /// The board's brightness.
    pub fn brightness(&self) -> (r: Result<i32, String>)
        ensures
            self.0.brightness_result(self.1, r),
    {
        self.0.brightness(self.1)
    }

    /// Sets the board's brightness.
    pub fn set_brightness(&mut self, brightness: i32) -> (r: Result<(), String>)
        ensures
            final(self).1 == old(self).1,
            D::set_brightness_step(old(self).0, final(self).0, old(self).1, brightness, r),
    {
        self.0.set_brightness(self.1, brightness)
    }
}

} // verus!
