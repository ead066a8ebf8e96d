//! Reading the cell grid of the terminal emulator.
use alacritty_terminal::grid::{Dimensions, Grid};
use alacritty_terminal::index::{Column, Line};
use alacritty_terminal::term::cell::Cell;
use alacritty_terminal::vte::ansi::Color;
use vstd::prelude::*;

use super::snapshot::{CellStyle, TerminalColor, TerminalModes};

verus! {

/// The emulator's grid of cells.
#[verifier::external_type_specification]
#[verifier::external_body]
#[verifier::reject_recursive_types(T)]
pub struct ExGrid<T>(alacritty_terminal::grid::Grid<T>);

/// One cell of the emulator's grid.
#[verifier::external_type_specification]
#[verifier::external_body]
pub struct ExCell(alacritty_terminal::term::cell::Cell);

/// A cell of the grid as plain values; `flags` are the emulator's bits.
#[derive(Debug)]
pub struct GridCell {
    pub character: char,
    pub fg: TerminalColor,
    pub bg: TerminalColor,
    pub flags: u16,
    pub zerowidth: Vec<char>,
}

/// A cell of the grid by its values.
#[verifier::ext_equal]
pub struct GridCellView {
    pub character: char,
    pub fg: TerminalColor,
    pub bg: TerminalColor,
    pub flags: u16,
    pub zerowidth: Seq<char>,
}

impl View for GridCell {
    type V = GridCellView;

    open spec fn view(&self) -> GridCellView {
        GridCellView {
            character: self.character,
            fg: self.fg,
            bg: self.bg,
            flags: self.flags,
            zerowidth: self.zerowidth@,
        }
    }
}

/// The extent of a grid, what part of it is displayed and where its cursor is.
#[derive(Debug, Clone, Copy, PartialEq, Eq, Structural)]
pub struct GridShape {
    pub columns: usize,
    pub screen_lines: usize,
    pub total_lines: usize,
    pub display_offset: usize,
    pub cursor_line: i32,
    pub cursor_column: usize,
}

impl GridShape {
    /// Lines of history above the screen.
    pub open spec fn history(self) -> int {
        if self.total_lines >= self.screen_lines {
            self.total_lines - self.screen_lines
        } else {
            0
        }
    }

    /// The lines are within the emulator's line numbers.
    pub open spec fn is_numbered(self) -> bool {
        self.total_lines <= i32::MAX && self.screen_lines <= i32::MAX
    }

    /// The grid holds the line: history lines count down from -1.
    pub open spec fn has_line(self, line: int) -> bool {
        -self.history() <= line < self.screen_lines
    }
}

/// The cells of a grid by line and column.
pub uninterp spec fn grid_cells(grid: Grid<Cell>) -> Map<(int, int), GridCellView>;

/// The shape of a grid.
pub uninterp spec fn grid_shape(grid: Grid<Cell>) -> GridShape;

/// `Grid::columns` is the width of a grid.
#[verifier::external_body]
fn grid_columns(grid: &Grid<Cell>) -> (columns: usize)
    ensures
        columns == grid_shape(*grid).columns,
{
    grid.columns()
}

/// `Grid::screen_lines` is the height of the screen.
#[verifier::external_body]
fn grid_screen_lines(grid: &Grid<Cell>) -> (lines: usize)
    ensures
        lines == grid_shape(*grid).screen_lines,
{
    grid.screen_lines()
}

/// `Grid::total_lines` counts the lines of the screen and of the history.
#[verifier::external_body]
fn grid_total_lines(grid: &Grid<Cell>) -> (lines: usize)
    ensures
        lines == grid_shape(*grid).total_lines,
{
    grid.total_lines()
}

/// `Grid::display_offset` is how far the display is above the bottom.
#[verifier::external_body]
fn grid_display_offset(grid: &Grid<Cell>) -> (offset: usize)
    ensures
        offset == grid_shape(*grid).display_offset,
{
    grid.display_offset()
}

/// The `point` of a `Grid`'s cursor: its line and its column.
#[verifier::external_body]
fn grid_cursor(grid: &Grid<Cell>) -> (point: (i32, usize))
    ensures
        point.0 == grid_shape(*grid).cursor_line,
        point.1 == grid_shape(*grid).cursor_column,
{
    (grid.cursor.point.line.0, grid.cursor.point.column.0)
}

/// The shape of a grid.
pub(crate) fn read_shape(grid: &Grid<Cell>) -> (shape: GridShape)
    ensures
        shape == grid_shape(*grid),
{
    let (cursor_line, cursor_column) = grid_cursor(grid);
    GridShape {
        columns: grid_columns(grid),
        screen_lines: grid_screen_lines(grid),
        total_lines: grid_total_lines(grid),
        display_offset: grid_display_offset(grid),
        cursor_line,
        cursor_column,
    }
}

/// Indexes a `Grid` by line and column: the cell that stands there, with its
/// colours, flag bits and zero width characters as plain values. The grid
/// counts the line up from its oldest one in 32 bits with a sign.
#[verifier::external_body]
pub(crate) fn read_cell(grid: &Grid<Cell>, line: i32, column: usize) -> (cell: GridCell)
    requires
        grid_shape(*grid).has_line(line as int),
        grid_shape(*grid).is_numbered(),
        column < grid_shape(*grid).columns,
    ensures
        cell@ == grid_cells(*grid)[(line as int, column as int)],
{
    let cell = &grid[Line(line)][Column(column)];
    let plain = |color: Color| match color {
        Color::Named(named) => TerminalColor::Named { value: named as u16 },
        Color::Spec(rgb) => TerminalColor::Rgb { red: rgb.r, green: rgb.g, blue: rgb.b },
        Color::Indexed(value) => TerminalColor::Indexed { value },
    };
    GridCell {
        character: cell.c,
        fg: plain(cell.fg),
        bg: plain(cell.bg),
        flags: cell.flags.bits(),
        zerowidth: cell.zerowidth().unwrap_or_default().to_vec(),
    }
}

/// The style that the flag bits of a cell stand for, numbered as in the
/// emulator's `Flags`; an underline is any of five bits.
pub open spec fn style_of_bits(bits: u16) -> CellStyle {
    CellStyle {
        inverse: bits & 0x0001 == 0x0001,
        bold: bits & 0x0002 == 0x0002,
        italic: bits & 0x0004 == 0x0004,
        underline: bits & 0x7808 != 0,
        strike: bits & 0x0200 == 0x0200,
        wide: bits & 0x0020 == 0x0020,
        wide_spacer: bits & 0x0040 == 0x0040,
        leading_wide_spacer: bits & 0x0400 == 0x0400,
        wrapline: bits & 0x0010 == 0x0010,
        dim: bits & 0x0080 == 0x0080,
    }
}

/// Reads the style off a cell's flag bits.
pub(crate) fn read_style(bits: u16) -> (style: CellStyle)
    ensures
        style == style_of_bits(bits),
{
    CellStyle {
        inverse: bits & 0x0001 == 0x0001,
        bold: bits & 0x0002 == 0x0002,
        italic: bits & 0x0004 == 0x0004,
        underline: bits & 0x7808 != 0,
        strike: bits & 0x0200 == 0x0200,
        wide: bits & 0x0020 == 0x0020,
        wide_spacer: bits & 0x0040 == 0x0040,
        leading_wide_spacer: bits & 0x0400 == 0x0400,
        wrapline: bits & 0x0010 == 0x0010,
        dim: bits & 0x0080 == 0x0080,
    }
}

/// The modes that the mode bits stand for, numbered as in the emulator's
/// `TermMode`; mouse reporting is any of three bits.
pub open spec fn modes_of_bits(bits: u32) -> TerminalModes {
    TerminalModes {
        application_cursor: bits & 0x0002 == 0x0002,
        bracketed_paste: bits & 0x0010 == 0x0010,
        mouse_reporting: bits & 0x2048 != 0,
        mouse_motion: bits & 0x0040 == 0x0040,
        mouse_drag: bits & 0x2000 == 0x2000,
        sgr_mouse: bits & 0x0020 == 0x0020,
        utf8_mouse: bits & 0x4000 == 0x4000,
        alternate_screen: bits & 0x1000 == 0x1000,
        alternate_scroll: bits & 0x8000 == 0x8000,
    }
}

/// The mode bits show the cursor.
pub open spec fn cursor_shown(bits: u32) -> bool {
    bits & 0x0001 == 0x0001
}

/// Reads the modes off the mode bits.
pub(crate) fn read_modes(bits: u32) -> (modes: TerminalModes)
    ensures
        modes == modes_of_bits(bits),
{
    TerminalModes {
        application_cursor: bits & 0x0002 == 0x0002,
        bracketed_paste: bits & 0x0010 == 0x0010,
        mouse_reporting: bits & 0x2048 != 0,
        mouse_motion: bits & 0x0040 == 0x0040,
        mouse_drag: bits & 0x2000 == 0x2000,
        sgr_mouse: bits & 0x0020 == 0x0020,
        utf8_mouse: bits & 0x4000 == 0x4000,
        alternate_screen: bits & 0x1000 == 0x1000,
        alternate_scroll: bits & 0x8000 == 0x8000,
    }
}

/// Whether the mode bits show the cursor.
pub(crate) fn read_cursor_shown(bits: u32) -> (shown: bool)
    ensures
        shown == cursor_shown(bits),
{
    bits & 0x0001 == 0x0001
}

/// Every style has a bit of its own, as the emulator numbers them; an underline
/// of any form is an underline.
pub proof fn every_style_has_its_bit(bits: u16)
    ensures
        ({
            let style = style_of_bits(bits);
            &&& style.inverse == (bits % 2 == 1)
            &&& style.bold == (bits / 2 % 2 == 1)
            &&& style.italic == (bits / 4 % 2 == 1)
            &&& style.wrapline == (bits / 16 % 2 == 1)
            &&& style.wide == (bits / 32 % 2 == 1)
            &&& style.wide_spacer == (bits / 64 % 2 == 1)
            &&& style.dim == (bits / 128 % 2 == 1)
            &&& style.strike == (bits / 512 % 2 == 1)
            &&& style.leading_wide_spacer == (bits / 1024 % 2 == 1)
            &&& style.underline == (bits / 8 % 2 == 1 || bits / 2048 % 2 == 1 || bits / 4096 % 2
                == 1 || bits / 8192 % 2 == 1 || bits / 16384 % 2 == 1)
        }),
{
    assert((bits & 1 == 1) == (bits % 2 == 1) && (bits & 2 == 2) == (bits / 2 % 2 == 1) && (bits & 4
        == 4) == (bits / 4 % 2 == 1) && (bits & 16 == 16) == (bits / 16 % 2 == 1) && (bits & 32
        == 32) == (bits / 32 % 2 == 1) && (bits & 64 == 64) == (bits / 64 % 2 == 1) && (bits & 128
        == 128) == (bits / 128 % 2 == 1) && (bits & 512 == 512) == (bits / 512 % 2 == 1) && (bits
        & 1024 == 1024) == (bits / 1024 % 2 == 1) && (bits & 0x7808 != 0) == (bits / 8 % 2 == 1
        || bits / 2048 % 2 == 1 || bits / 4096 % 2 == 1 || bits / 8192 % 2 == 1 || bits / 16384
        % 2 == 1)) by (bit_vector);
}

/// Every mode has a bit of its own, as the emulator numbers them; the mouse is
/// reported where clicks, drags or motions are.
pub proof fn every_mode_has_its_bit(bits: u32)
    ensures
        ({
            let modes = modes_of_bits(bits);
            &&& cursor_shown(bits) == (bits % 2 == 1)
            &&& modes.application_cursor == (bits / 2 % 2 == 1)
            &&& modes.bracketed_paste == (bits / 16 % 2 == 1)
            &&& modes.sgr_mouse == (bits / 32 % 2 == 1)
            &&& modes.mouse_motion == (bits / 64 % 2 == 1)
            &&& modes.alternate_screen == (bits / 4096 % 2 == 1)
            &&& modes.mouse_drag == (bits / 8192 % 2 == 1)
            &&& modes.utf8_mouse == (bits / 16384 % 2 == 1)
            &&& modes.alternate_scroll == (bits / 32768 % 2 == 1)
            &&& modes.mouse_reporting == (bits / 8 % 2 == 1 || modes.mouse_motion
                || modes.mouse_drag)
        }),
{
    assert((bits & 1 == 1) == (bits % 2 == 1) && (bits & 2 == 2) == (bits / 2 % 2 == 1) && (bits
        & 16 == 16) == (bits / 16 % 2 == 1) && (bits & 32 == 32) == (bits / 32 % 2 == 1) && (bits
        & 64 == 64) == (bits / 64 % 2 == 1) && (bits & 0x1000 == 0x1000) == (bits / 4096 % 2 == 1)
        && (bits & 0x2000 == 0x2000) == (bits / 8192 % 2 == 1) && (bits & 0x4000 == 0x4000) == (bits
        / 16384 % 2 == 1) && (bits & 0x8000 == 0x8000) == (bits / 32768 % 2 == 1) && (bits & 0x2048
        != 0) == (bits / 8 % 2 == 1 || bits / 64 % 2 == 1 || bits / 8192 % 2 == 1))
        by (bit_vector);
}

} // verus!
