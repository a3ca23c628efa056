use vstd::prelude::*;

verus! {

/// A cell colour as the terminal emulator reports it.
#[derive(Debug, Clone, Copy, PartialEq, Eq)]
pub enum CellColor {
    Default,
    Idx(u8),
    Rgb(u8, u8, u8),
}

/// A colour as the UI draws it.
#[derive(Debug, Clone, Copy, PartialEq, Eq)]
pub enum UiColor {
    Reset,
    Indexed(u8),
    Rgb(u8, u8, u8),
}

/// Perceived luminance of an RGB colour, weighted 299/587/114 per mille.
pub open spec fn luminance(r: u8, g: u8, b: u8) -> int {
    (r as int * 299 + g as int * 587 + b as int * 114) / 1000
}

/// Whether an RGB colour is dark enough to count as a background colour
/// that the theme background should replace.
pub fn is_dark_bg(r: u8, g: u8, b: u8) -> (dark: bool)
    ensures
        dark == (luminance(r, g, b) < 35),
{
    let lum: u32 = (r as u32 * 299 + g as u32 * 587 + b as u32 * 114) / 1000;
    lum < 35
}

/// The foreground a cell colour maps to: the default stays the terminal default.
pub open spec fn fg_of(color: CellColor) -> UiColor {
    match color {
        CellColor::Default => UiColor::Reset,
        CellColor::Idx(i) => UiColor::Indexed(i),
        CellColor::Rgb(r, g, b) => UiColor::Rgb(r, g, b),
    }
}

/// The background a cell colour maps to: the default, black, the dark greys
/// 232..=237 and every dark RGB colour give way to the theme background.
pub open spec fn bg_of(color: CellColor, theme_bg: UiColor) -> UiColor {
    match color {
        CellColor::Default => theme_bg,
        CellColor::Idx(i) => if i == 0 || (232 <= i && i <= 237) {
            theme_bg
        } else {
            UiColor::Indexed(i)
        },
        CellColor::Rgb(r, g, b) => if luminance(r, g, b) < 35 {
            theme_bg
        } else {
            UiColor::Rgb(r, g, b)
        },
    }
}

/// Convert a foreground colour.
pub fn convert_fg(color: CellColor, _theme_bg: UiColor) -> (c: UiColor)
    ensures
        c == fg_of(color),
{
    match color {
        CellColor::Default => UiColor::Reset,
        CellColor::Idx(i) => UiColor::Indexed(i),
        CellColor::Rgb(r, g, b) => UiColor::Rgb(r, g, b),
    }
}

/// Convert a background colour, replacing default and dark backgrounds with
/// the theme background.
pub fn convert_bg(color: CellColor, theme_bg: UiColor) -> (c: UiColor)
    ensures
        c == bg_of(color, theme_bg),
{
    match color {
        CellColor::Default => theme_bg,
        CellColor::Idx(i) => {
            if i == 0 || (232 <= i && i <= 237) {
                theme_bg
            } else {
                UiColor::Indexed(i)
            }
        },
        CellColor::Rgb(r, g, b) => {
            if is_dark_bg(r, g, b) {
                theme_bg
            } else {
                UiColor::Rgb(r, g, b)
            }
        },
    }
}

/// A background conversion never yields a dark RGB colour: whatever it gives
/// is either the theme background or a colour that is not dark.
pub proof fn law_bg_never_dark(color: CellColor, theme_bg: UiColor)
    ensures
        bg_of(color, theme_bg) == theme_bg || match bg_of(color, theme_bg) {
            UiColor::Rgb(r, g, b) => luminance(r, g, b) >= 35,
            UiColor::Indexed(i) => i != 0 && !(232 <= i && i <= 237),
            UiColor::Reset => false,
        },
{
}

} // verus!
