//! The backlight settings: which of its rows the panel shows for the
//! layout and the lighting mode chosen.

use vstd::prelude::*;

verus! {

/// A row of the backlight panel.
#[derive(Clone, Copy, Debug, PartialEq, Eq, Structural)]
pub enum BacklightRow {
    Mode,
    Speed,
    Color,
    Saturation,
    Brightness,
}

/// Whether the panel shows `row`: the mode only where the layout has modes,
/// the speed only for a mode that has one, the color for a mode with a hue,
/// the saturation for a mode without one, and the brightness always.
pub open spec fn row_shown(row: BacklightRow, layout_has_mode: bool, mode_has_speed: bool, mode_has_hue: bool) -> bool {
    match row {
        BacklightRow::Mode => layout_has_mode,
        BacklightRow::Speed => layout_has_mode && mode_has_speed,
        BacklightRow::Color => mode_has_hue,
        BacklightRow::Saturation => !mode_has_hue,
        BacklightRow::Brightness => true,
    }
}

/// Whether the backlight panel shows `row`; see `row_shown`.
pub fn row_visible(row: BacklightRow, layout_has_mode: bool, mode_has_speed: bool, mode_has_hue: bool) -> (b: bool)
    ensures
        b == row_shown(row, layout_has_mode, mode_has_speed, mode_has_hue),
{
    match row {
        BacklightRow::Mode => layout_has_mode,
        BacklightRow::Speed => layout_has_mode && mode_has_speed,
        BacklightRow::Color => mode_has_hue,
        BacklightRow::Saturation => !mode_has_hue,
        BacklightRow::Brightness => true,
    }
}

/// Exactly one of the color and saturation rows is shown, whatever the mode.
pub proof fn lemma_color_or_saturation(layout_has_mode: bool, mode_has_speed: bool, mode_has_hue: bool)
    ensures
        row_shown(BacklightRow::Color, layout_has_mode, mode_has_speed, mode_has_hue) != row_shown(
            BacklightRow::Saturation,
            layout_has_mode,
            mode_has_speed,
            mode_has_hue,
        ),
        row_shown(BacklightRow::Speed, layout_has_mode, mode_has_speed, mode_has_hue) ==> row_shown(
            BacklightRow::Mode,
            layout_has_mode,
            mode_has_speed,
            mode_has_hue,
        ),
{
}

} // verus!
