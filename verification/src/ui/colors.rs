//! The colours of a terminal's cells.
use vstd::prelude::*;

use crate::terminal::snapshot::{CellView, TerminalCell, TerminalColor};

verus! {

/// The colours of the windows, as `0xRRGGBB`.
#[derive(Debug, Clone, Copy, PartialEq, Eq, Structural)]
pub struct ThemeColors {
    pub terminal_background: u32,
    pub terminal_foreground: u32,
    pub selection_background: u32,
    pub cursor_foreground: u32,
    pub cursor_background: u32,
    pub inactive_cursor: u32,
    pub inverse_foreground: u32,
    pub inverse_background: u32,
    pub pane_background: u32,
    pub active_pane_border: u32,
    pub inactive_pane_border: u32,
    pub chrome_background: u32,
    pub tab_active_background: u32,
    pub tab_inactive_background: u32,
    pub tab_add_background: u32,
    pub ui_foreground: u32,
}

/// A colour of three channels as one number.
pub open spec fn packed(red: int, green: int, blue: int) -> u32 {
    (red * 65536 + green * 256 + blue) as u32
}

/// The sixteen colours of the palette.
pub open spec fn palette() -> Seq<u32> {
    seq![
        0x000000u32,
        0xaa0000u32,
        0x00aa00u32,
        0xf57900u32,
        0x1e8acbu32,
        0xaa00aau32,
        0x00aaaau32,
        0xaaaaaau32,
        0x555555u32,
        0xff5555u32,
        0x339966u32,
        0xffff55u32,
        0x729fcfu32,
        0xd530c6u32,
        0x55ffffu32,
        0xffffffu32,
    ]
}

/// A colour of the palette; numbers beyond it stand for its last colour.
pub fn basic_color(index: usize) -> (color: u32)
    ensures
        color == palette()[if index < 16 {
            index as int
        } else {
            15
        }],
{
    let colors: [u32; 16] = [
        0x000000,
        0xaa0000,
        0x00aa00,
        0xf57900,
        0x1e8acb,
        0xaa00aa,
        0x00aaaa,
        0xaaaaaa,
        0x555555,
        0xff5555,
        0x339966,
        0xffff55,
        0x729fcf,
        0xd530c6,
        0x55ffff,
        0xffffff,
    ];
    colors[index.min(15)]
}

/// A channel of the colour cube.
pub open spec fn cube_channel(level: int) -> int {
    if level == 0 {
        0
    } else {
        55 + 40 * level
    }
}

/// A colour by its index: the palette, the colour cube, and the grey ramp.
pub open spec fn indexed(index: int) -> u32 {
    if index < 16 {
        palette()[index]
    } else if index <= 231 {
        let place = index - 16;
        packed(
            cube_channel(place / 36),
            cube_channel((place % 36) / 6),
            cube_channel(place % 6),
        )
    } else {
        let gray = 8 + 10 * (index - 232);
        packed(gray, gray, gray)
    }
}

fn read_channel(level: u8) -> (channel: u32)
    requires
        level <= 7,
    ensures
        channel == cube_channel(level as int),
{
    if level == 0 {
        0
    } else {
        55 + 40 * level as u32
    }
}

/// A colour by its index.
pub fn indexed_color(index: u8) -> (color: u32)
    ensures
        color == indexed(index as int),
{
    if index < 16 {
        return basic_color(index as usize);
    }
    if index <= 231 {
        let place: u8 = index - 16;
        let red: u32 = read_channel(place / 36);
        let green: u32 = read_channel((place % 36) / 6);
        let blue: u32 = read_channel(place % 6);
        return red * 65536 + green * 256 + blue;
    }
    let gray: u32 = 8 + 10 * (index as u32 - 232);
    gray * 65536 + gray * 256 + gray
}

/// A colour of a cell as a number. The default colours are those of the theme.
pub open spec fn rgb_of(color: TerminalColor, foreground: bool, theme: ThemeColors) -> u32 {
    match color {
        TerminalColor::Rgb { red, green, blue } => packed(red as int, green as int, blue as int),
        TerminalColor::Named { value } => if value < 16 {
            palette()[value as int]
        } else if value == 256 && foreground {
            theme.terminal_foreground
        } else if value == 257 && !foreground {
            theme.terminal_background
        } else if value == 258 {
            theme.terminal_foreground
        } else if value == 259 {
            theme.terminal_background
        } else {
            theme.ui_foreground
        },
        TerminalColor::Indexed { value } => indexed(value as int),
    }
}

/// A colour of a cell as a number.
pub fn color_to_rgb(color: TerminalColor, foreground: bool, theme: ThemeColors) -> (rgb: u32)
    ensures
        rgb == rgb_of(color, foreground, theme),
{
    match color {
        TerminalColor::Rgb { red, green, blue } => red as u32 * 65536 + green as u32 * 256
            + blue as u32,
        TerminalColor::Named { value } => if value < 16 {
            basic_color(value as usize)
        } else if value == 256 && foreground {
            theme.terminal_foreground
        } else if value == 257 && !foreground {
            theme.terminal_background
        } else if value == 258 {
            theme.terminal_foreground
        } else if value == 259 {
            theme.terminal_background
        } else {
            theme.ui_foreground
        },
        TerminalColor::Indexed { value } => indexed_color(value),
    }
}

/// A colour of the theme as a colour of a cell.
pub open spec fn theme_rgb(value: u32) -> TerminalColor {
    TerminalColor::Rgb {
        red: ((value / 65536) % 256) as u8,
        green: ((value / 256) % 256) as u8,
        blue: (value % 256) as u8,
    }
}

/// A colour of the theme as a colour of a cell.
pub fn theme_color(value: u32) -> (color: TerminalColor)
    ensures
        color == theme_rgb(value),
{
    TerminalColor::Rgb {
        red: ((value / 65536) % 256) as u8,
        green: ((value / 256) % 256) as u8,
        blue: (value % 256) as u8,
    }
}

/// The colours that a cell is drawn in. An inverse cell swaps its own; one in
/// the default colours takes those of the theme.
pub open spec fn cell_colors(cell: CellView, theme: ThemeColors) -> (TerminalColor, TerminalColor) {
    let plain = cell.fg == TerminalColor::Named { value: 256 } && cell.bg == TerminalColor::Named {
        value: 257,
    };
    if !cell.style.inverse {
        (cell.fg, cell.bg)
    } else if plain {
        (theme_rgb(theme.inverse_foreground), theme_rgb(theme.inverse_background))
    } else {
        (cell.bg, cell.fg)
    }
}

/// The colours that a cell is drawn in.
pub fn terminal_cell_colors(cell: &TerminalCell, theme: ThemeColors) -> (colors: (
    TerminalColor,
    TerminalColor,
))
    ensures
        colors == cell_colors(cell@, theme),
{
    let plain: bool = cell.fg == (TerminalColor::Named { value: 256 }) && cell.bg == (
    TerminalColor::Named { value: 257 });
    if !cell.flags.inverse() {
        (cell.fg, cell.bg)
    } else if plain {
        (theme_color(theme.inverse_foreground), theme_color(theme.inverse_background))
    } else {
        (cell.bg, cell.fg)
    }
}

/// A colour of the theme is drawn as it is.
pub proof fn theme_colors_are_kept(value: u32, foreground: bool, theme: ThemeColors)
    requires
        value <= 0xff_ffff,
    ensures
        rgb_of(theme_rgb(value), foreground, theme) == value,
{
    assert(value == (value / 65536) * 65536 + ((value / 256) % 256) * 256 + value % 256);
    assert(value / 65536 < 256);
}

/// The sixteen named colours.
pub proof fn named_colors_are_those_of_the_palette(foreground: bool, theme: ThemeColors)
    ensures
        rgb_of(TerminalColor::Named { value: 0 }, foreground, theme) == 0x000000,
        rgb_of(TerminalColor::Named { value: 1 }, foreground, theme) == 0xaa0000,
        rgb_of(TerminalColor::Named { value: 2 }, foreground, theme) == 0x00aa00,
        rgb_of(TerminalColor::Named { value: 3 }, foreground, theme) == 0xf57900,
        rgb_of(TerminalColor::Named { value: 4 }, foreground, theme) == 0x1e8acb,
        rgb_of(TerminalColor::Named { value: 5 }, foreground, theme) == 0xaa00aa,
        rgb_of(TerminalColor::Named { value: 6 }, foreground, theme) == 0x00aaaa,
        rgb_of(TerminalColor::Named { value: 7 }, foreground, theme) == 0xaaaaaa,
        rgb_of(TerminalColor::Named { value: 8 }, foreground, theme) == 0x555555,
        rgb_of(TerminalColor::Named { value: 9 }, foreground, theme) == 0xff5555,
        rgb_of(TerminalColor::Named { value: 10 }, foreground, theme) == 0x339966,
        rgb_of(TerminalColor::Named { value: 11 }, foreground, theme) == 0xffff55,
        rgb_of(TerminalColor::Named { value: 12 }, foreground, theme) == 0x729fcf,
        rgb_of(TerminalColor::Named { value: 13 }, foreground, theme) == 0xd530c6,
        rgb_of(TerminalColor::Named { value: 14 }, foreground, theme) == 0x55ffff,
        rgb_of(TerminalColor::Named { value: 15 }, foreground, theme) == 0xffffff,
        rgb_of(TerminalColor::Named { value: 256 }, true, theme) == theme.terminal_foreground,
        rgb_of(TerminalColor::Named { value: 257 }, false, theme) == theme.terminal_background,
        rgb_of(TerminalColor::Named { value: 258 }, foreground, theme)
            == theme.terminal_foreground,
        rgb_of(TerminalColor::Named { value: 259 }, foreground, theme)
            == theme.terminal_background,
        rgb_of(TerminalColor::Named { value: 256 }, false, theme) == theme.ui_foreground,
        rgb_of(TerminalColor::Named { value: 257 }, true, theme) == theme.ui_foreground,
{
}

/// The first sixteen numbered colours are the named ones; then comes a cube with
/// six levels of red, green and blue, and then twenty-four greys.
pub proof fn numbered_colors_are_laid_out(
    value: u8,
    red: int,
    green: int,
    blue: int,
    foreground: bool,
    theme: ThemeColors,
)
    requires
        0 <= red < 6,
        0 <= green < 6,
        0 <= blue < 6,
    ensures
        value < 16 ==> rgb_of(TerminalColor::Indexed { value }, foreground, theme) == rgb_of(
            TerminalColor::Named { value: value as u16 },
            foreground,
            theme,
        ),
        value == 16 + 36 * red + 6 * green + blue ==> rgb_of(
            TerminalColor::Indexed { value },
            foreground,
            theme,
        ) == (if red == 0 {
            0int
        } else {
            55 + 40 * red
        }) * 65536 + (if green == 0 {
            0int
        } else {
            55 + 40 * green
        }) * 256 + (if blue == 0 {
            0int
        } else {
            55 + 40 * blue
        }),
        value >= 232 ==> rgb_of(TerminalColor::Indexed { value }, foreground, theme) == (8 + 10 * (
        value - 232)) * 0x10101,
{
    if value == 16 + 36 * red + 6 * green + blue {
        let place = value - 16;
        assert(place / 36 == red);
        assert((place % 36) / 6 == green);
        assert(place % 6 == blue);
    }
}

/// A colour of its own is shown as it is; inverted cells swap their two colours,
/// and those without colours of their own take the theme's.
pub proof fn inverted_cells_swap_their_colors(
    cell: CellView,
    red: u8,
    green: u8,
    blue: u8,
    foreground: bool,
    theme: ThemeColors,
)
    ensures
        rgb_of(TerminalColor::Rgb { red, green, blue }, foreground, theme) == red * 65536 + green
            * 256 + blue,
        !cell.style.inverse ==> cell_colors(cell, theme) == (cell.fg, cell.bg),
        cell.style.inverse && (cell.fg != (TerminalColor::Named { value: 256 }) || cell.bg != (
        TerminalColor::Named { value: 257 })) ==> cell_colors(cell, theme) == (cell.bg, cell.fg),
        cell.style.inverse && cell.fg == (TerminalColor::Named { value: 256 }) && cell.bg == (
        TerminalColor::Named { value: 257 }) ==> cell_colors(cell, theme) == (
            theme_rgb(theme.inverse_foreground),
            theme_rgb(theme.inverse_background),
        ),
{
}

} // verus!
