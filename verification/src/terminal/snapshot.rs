//! The screen of a terminal as an immutable value.
use std::sync::Arc;

use alacritty_terminal::term::cell::Cell;
use smallvec::SmallVec;
use vstd::prelude::*;
use vstd::string::*;
use vstd::utf8::*;

use super::grid::{read_style, style_of_bits};
use crate::ids::TerminalId;
use crate::num::{clamp_usize, clamped, max_of, min_of};
use crate::shared::share;
use crate::text::{contains_bytes, has_run};

verus! {

/// Raw row reserve on each side of the viewport. This is deliberately wider
/// than the renderer's prepared-row lookahead: fast gestures can keep moving
/// from immutable local data while shaping remains bounded to a small band.
pub const VIEWPORT_OVERSCAN_ROWS: usize = 32;

pub const DEFAULT_COLUMNS: usize = 80;

pub const DEFAULT_LINES: usize = 24;

pub const MAX_COLUMNS: usize = 512;

pub const MAX_LINES: usize = 256;

/// Maximum normal scrollback configured for an individual terminal.
pub const MAX_SCROLLBACK_LINES: usize = 10_000;

/// Default per-terminal scrollback retained while a terminal is focused.
/// Matches the conservative tmux `history-limit` default.
pub const DEFAULT_SCROLLBACK_LINES: usize = 2_000;

/// Default per-terminal scrollback retained once a terminal loses focus.
/// Background tabs keep only their tail so many long tabs cannot exhaust
/// process memory.
pub const DEFAULT_INACTIVE_SCROLLBACK_LINES: usize = 500;

/// Default aggregate byte budget for all terminals' scrollback grids.
pub const DEFAULT_MAX_TOTAL_SCROLLBACK_BYTES: usize = 64 * 1024 * 1024;

pub const MIN_MAX_TOTAL_SCROLLBACK_BYTES: usize = 64 * 1024;

pub const MAX_TOTAL_SCROLLBACK_BYTES: usize = 1024 * 1024 * 1024;

pub const MAX_RECENT_OUTPUT_BYTES: usize = 64 * 1024;

/// Server-side raw replay history budget per terminal (bytes). The GUI
/// scrollback grid is a separate, row-based limit; the replay ring is the
/// resync source for re-attaching clients and headless captures.
pub const DEFAULT_REPLAY_HISTORY_BYTES: usize = 8 * 1024 * 1024;

pub const MIN_REPLAY_HISTORY_BYTES: usize = 1024 * 1024;

pub const SCROLLBACK_ROW_OVERHEAD_BYTES: usize = 64;

/// The cost of one scrollback row: its cells in the emulator's grid and a
/// fixed overhead.
pub open spec fn row_cost(columns: int) -> int {
    max_of(columns, 1) * vstd::layout::size_of::<Cell>() + SCROLLBACK_ROW_OVERHEAD_BYTES
}

/// A row costs something.
pub proof fn lemma_row_cost_positive(columns: int)
    ensures
        row_cost(columns) > 0,
{
    assert(max_of(columns, 1) * vstd::layout::size_of::<Cell>() >= 0) by (nonlinear_arith)
        requires
            max_of(columns, 1) >= 1,
    ;
}

/// Rows are charged by their width: each more column costs a cell more, a row
/// of one column a cell and the overhead, and a row without columns no less.
pub proof fn rows_are_charged_by_their_width(narrow: int, wide: int)
    requires
        1 <= narrow <= wide,
    ensures
        row_cost(wide) - row_cost(narrow) == (wide - narrow) * vstd::layout::size_of::<Cell>(),
        row_cost(1) == vstd::layout::size_of::<Cell>() + SCROLLBACK_ROW_OVERHEAD_BYTES,
        row_cost(0) == row_cost(1),
{
    let cell = vstd::layout::size_of::<Cell>() as int;
    assert(wide * cell - narrow * cell == (wide - narrow) * cell) by (nonlinear_arith);
    assert(1 * cell == cell) by (nonlinear_arith);
    assert(max_of(1, 1) == 1 && max_of(0, 1) == 1);
}

/// Estimated heap cost of one scrollback row at the given width.
///
/// Scrollback budgets must account in bytes, not rows: a 10,000-row history
/// at 512 columns costs an order of magnitude more than at 80 columns.
pub fn scrollback_row_bytes(columns: usize) -> (bytes: usize)
    requires
        row_cost(columns as int) <= usize::MAX,
    ensures
        bytes == row_cost(columns as int),
{
    let columns: usize = if columns < 1 {
        1
    } else {
        columns
    };
    let cell: usize = core::mem::size_of::<Cell>();
    columns * cell + SCROLLBACK_ROW_OVERHEAD_BYTES
}

/// Whether the cost of a row can be counted.
pub fn is_row_countable(columns: usize) -> (countable: bool)
    ensures
        countable == (row_cost(columns as int) <= usize::MAX),
{
    let columns: usize = if columns < 1 {
        1
    } else {
        columns
    };
    let cell: usize = core::mem::size_of::<Cell>();
    match columns.checked_mul(cell) {
        Some(cells) => cells <= usize::MAX - SCROLLBACK_ROW_OVERHEAD_BYTES,
        None => false,
    }
}

/// The geometry of a terminal in cells.
#[derive(Debug, Clone, Copy, PartialEq, Eq, Structural)]
pub struct TerminalSize {
    pub columns: usize,
    pub lines: usize,
}

impl TerminalSize {
    /// The size that [`TerminalSize::new`] gives for the requested geometry.
    pub open spec fn clamped_size(columns: int, lines: int) -> Self {
        TerminalSize {
            columns: clamped(columns, 2, MAX_COLUMNS as int) as usize,
            lines: clamped(lines, 1, MAX_LINES as int) as usize,
        }
    }

    /// A geometry within the limits that [`TerminalSize::new`] enforces.
    pub open spec fn within_limits(self) -> bool {
        2 <= self.columns <= MAX_COLUMNS && 1 <= self.lines <= MAX_LINES
    }

    pub fn new(columns: usize, lines: usize) -> (size: Self)
        ensures
            size == Self::clamped_size(columns as int, lines as int),
            size.within_limits(),
    {
        Self { columns: clamp_usize(columns, 2, MAX_COLUMNS), lines: clamp_usize(lines, 1, MAX_LINES) }
    }
}

impl Default for TerminalSize {
    fn default() -> (size: Self)
        ensures
            size.columns == DEFAULT_COLUMNS,
            size.lines == DEFAULT_LINES,
    {
        Self::new(DEFAULT_COLUMNS, DEFAULT_LINES)
    }
}

#[derive(Debug, Clone, Copy, PartialEq, Eq, Structural)]
pub enum TerminalProcessState {
    Running,
    Exited { code: Option<i32> },
}

#[derive(Debug, Clone, Copy, PartialEq, Eq, Structural)]
pub enum TerminalColor {
    Named { value: u16 },
    Rgb { red: u8, green: u8, blue: u8 },
    Indexed { value: u8 },
}

impl Default for TerminalColor {
    fn default() -> (color: Self)
        ensures
            color == (TerminalColor::Named { value: 256 }),
    {
        Self::Named { value: 256 }
    }
}

/// The style of a cell, one flag for each trait.
#[derive(Debug, Clone, Copy, PartialEq, Eq, Structural)]
pub struct CellStyle {
    pub inverse: bool,
    pub bold: bool,
    pub italic: bool,
    pub underline: bool,
    pub strike: bool,
    pub wide: bool,
    pub wide_spacer: bool,
    pub leading_wide_spacer: bool,
    pub wrapline: bool,
    pub dim: bool,
}

impl CellStyle {
    pub open spec fn plain() -> CellStyle {
        CellStyle {
            inverse: false,
            bold: false,
            italic: false,
            underline: false,
            strike: false,
            wide: false,
            wide_spacer: false,
            leading_wide_spacer: false,
            wrapline: false,
            dim: false,
        }
    }
}

/// The style of a cell in one word.
#[derive(Debug, Clone, Copy, PartialEq, Eq, Structural)]
pub struct TerminalCellFlags {
    bits: u16,
}

const INVERSE: u16 = 0x0001;

const BOLD: u16 = 0x0002;

const ITALIC: u16 = 0x0004;

const UNDERLINE: u16 = 0x0008;

const STRIKE: u16 = 0x0010;

const WIDE: u16 = 0x0020;

const WIDE_SPACER: u16 = 0x0040;

const LEADING_WIDE_SPACER: u16 = 0x0080;

const WRAPLINE: u16 = 0x0100;

const DIM: u16 = 0x0200;

spec fn style_in(bits: u16) -> CellStyle {
    CellStyle {
        inverse: bits & 0x0001 != 0,
        bold: bits & 0x0002 != 0,
        italic: bits & 0x0004 != 0,
        underline: bits & 0x0008 != 0,
        strike: bits & 0x0010 != 0,
        wide: bits & 0x0020 != 0,
        wide_spacer: bits & 0x0040 != 0,
        leading_wide_spacer: bits & 0x0080 != 0,
        wrapline: bits & 0x0100 != 0,
        dim: bits & 0x0200 != 0,
    }
}

impl View for TerminalCellFlags {
    type V = CellStyle;

    closed spec fn view(&self) -> CellStyle {
        style_in(self.bits)
    }
}

spec fn is_flag(flag: u16) -> bool {
    flag == 0x0001 || flag == 0x0002 || flag == 0x0004 || flag == 0x0008 || flag == 0x0010 || flag
        == 0x0020 || flag == 0x0040 || flag == 0x0080 || flag == 0x0100 || flag == 0x0200
}

/// Setting or clearing one flag decides that flag and leaves the others.
proof fn lemma_set_flag(bits: u16, flag: u16, other: u16)
    by (bit_vector)
    requires
        flag == 0x0001 || flag == 0x0002 || flag == 0x0004 || flag == 0x0008 || flag == 0x0010
            || flag == 0x0020 || flag == 0x0040 || flag == 0x0080 || flag == 0x0100 || flag
            == 0x0200,
        other == 0x0001 || other == 0x0002 || other == 0x0004 || other == 0x0008 || other == 0x0010
            || other == 0x0020 || other == 0x0040 || other == 0x0080 || other == 0x0100 || other
            == 0x0200,
    ensures
        ((bits | flag) & other != 0) == (flag == other || bits & other != 0),
        ((bits & !flag) & other != 0) == (flag != other && bits & other != 0),
{
}

impl TerminalCellFlags {
    /// The plain style.
    pub fn plain() -> (flags: Self)
        ensures
            flags@ == CellStyle::plain(),
    {
        assert(style_in(0) == CellStyle::plain()) by {
            assert(forall|mask: u16| #[trigger] (0u16 & mask) == 0) by (bit_vector);
        }
        Self { bits: 0 }
    }

    fn set(&mut self, flag: u16, value: bool)
        requires
            is_flag(flag),
        ensures
            final(self)@ == (CellStyle {
                inverse: if flag == INVERSE {
                    value
                } else {
                    old(self)@.inverse
                },
                bold: if flag == BOLD {
                    value
                } else {
                    old(self)@.bold
                },
                italic: if flag == ITALIC {
                    value
                } else {
                    old(self)@.italic
                },
                underline: if flag == UNDERLINE {
                    value
                } else {
                    old(self)@.underline
                },
                strike: if flag == STRIKE {
                    value
                } else {
                    old(self)@.strike
                },
                wide: if flag == WIDE {
                    value
                } else {
                    old(self)@.wide
                },
                wide_spacer: if flag == WIDE_SPACER {
                    value
                } else {
                    old(self)@.wide_spacer
                },
                leading_wide_spacer: if flag == LEADING_WIDE_SPACER {
                    value
                } else {
                    old(self)@.leading_wide_spacer
                },
                wrapline: if flag == WRAPLINE {
                    value
                } else {
                    old(self)@.wrapline
                },
                dim: if flag == DIM {
                    value
                } else {
                    old(self)@.dim
                },
            }),
    {
        proof {
            lemma_set_flag(self.bits, flag, 0x0001);
            lemma_set_flag(self.bits, flag, 0x0002);
            lemma_set_flag(self.bits, flag, 0x0004);
            lemma_set_flag(self.bits, flag, 0x0008);
            lemma_set_flag(self.bits, flag, 0x0010);
            lemma_set_flag(self.bits, flag, 0x0020);
            lemma_set_flag(self.bits, flag, 0x0040);
            lemma_set_flag(self.bits, flag, 0x0080);
            lemma_set_flag(self.bits, flag, 0x0100);
            lemma_set_flag(self.bits, flag, 0x0200);
        }
        if value {
            self.bits = self.bits | flag;
        } else {
            self.bits = self.bits & !flag;
        }
    }

    pub fn inverse(self) -> (set: bool)
        ensures
            set == self@.inverse,
    {
        self.bits & INVERSE != 0
    }

    pub fn bold(self) -> (set: bool)
        ensures
            set == self@.bold,
    {
        self.bits & BOLD != 0
    }

    pub fn italic(self) -> (set: bool)
        ensures
            set == self@.italic,
    {
        self.bits & ITALIC != 0
    }

    pub fn underline(self) -> (set: bool)
        ensures
            set == self@.underline,
    {
        self.bits & UNDERLINE != 0
    }

    pub fn strike(self) -> (set: bool)
        ensures
            set == self@.strike,
    {
        self.bits & STRIKE != 0
    }

    pub fn wide(self) -> (set: bool)
        ensures
            set == self@.wide,
    {
        self.bits & WIDE != 0
    }

    pub fn wide_spacer(self) -> (set: bool)
        ensures
            set == self@.wide_spacer,
    {
        self.bits & WIDE_SPACER != 0
    }

    pub fn leading_wide_spacer(self) -> (set: bool)
        ensures
            set == self@.leading_wide_spacer,
    {
        self.bits & LEADING_WIDE_SPACER != 0
    }

    pub fn wrapline(self) -> (set: bool)
        ensures
            set == self@.wrapline,
    {
        self.bits & WRAPLINE != 0
    }

    pub fn dim(self) -> (set: bool)
        ensures
            set == self@.dim,
    {
        self.bits & DIM != 0
    }

    pub fn set_wide(&mut self, value: bool)
        ensures
            final(self)@ == (CellStyle { wide: value, ..old(self)@ }),
    {
        self.set(WIDE, value);
    }

    pub fn set_wide_spacer(&mut self, value: bool)
        ensures
            final(self)@ == (CellStyle { wide_spacer: value, ..old(self)@ }),
    {
        self.set(WIDE_SPACER, value);
    }

    pub fn set_leading_wide_spacer(&mut self, value: bool)
        ensures
            final(self)@ == (CellStyle { leading_wide_spacer: value, ..old(self)@ }),
    {
        self.set(LEADING_WIDE_SPACER, value);
    }

    /// The style that the flags stand for.
    pub fn style(self) -> (style: CellStyle)
        ensures
            style == self@,
    {
        CellStyle {
            inverse: self.inverse(),
            bold: self.bold(),
            italic: self.italic(),
            underline: self.underline(),
            strike: self.strike(),
            wide: self.wide(),
            wide_spacer: self.wide_spacer(),
            leading_wide_spacer: self.leading_wide_spacer(),
            wrapline: self.wrapline(),
            dim: self.dim(),
        }
    }

    /// The flags of a style.
    pub fn from_style(style: CellStyle) -> (flags: Self)
        ensures
            flags@ == style,
    {
        let mut flags = Self::plain();
        flags.set(INVERSE, style.inverse);
        flags.set(BOLD, style.bold);
        flags.set(ITALIC, style.italic);
        flags.set(UNDERLINE, style.underline);
        flags.set(STRIKE, style.strike);
        flags.set(DIM, style.dim);
        flags.set(WIDE, style.wide);
        flags.set(WIDE_SPACER, style.wide_spacer);
        flags.set(LEADING_WIDE_SPACER, style.leading_wide_spacer);
        flags.set(WRAPLINE, style.wrapline);
        flags
    }

    /// The flags of a cell of the emulator's grid, from its flag bits.
    pub fn from_alacritty(bits: u16) -> (flags: Self)
        ensures
            flags@ == style_of_bits(bits),
    {
        Self::from_style(read_style(bits))
    }
}

impl Default for TerminalCellFlags {
    fn default() -> (flags: Self)
        ensures
            flags@ == CellStyle::plain(),
    {
        Self::plain()
    }
}

#[derive(Debug, Clone, Copy, PartialEq, Eq, Structural)]
pub struct TerminalModes {
    pub application_cursor: bool,
    pub bracketed_paste: bool,
    pub mouse_reporting: bool,
    pub mouse_motion: bool,
    pub mouse_drag: bool,
    pub sgr_mouse: bool,
    pub utf8_mouse: bool,
    pub alternate_screen: bool,
    pub alternate_scroll: bool,
}

impl TerminalModes {
    pub open spec fn none() -> TerminalModes {
        TerminalModes {
            application_cursor: false,
            bracketed_paste: false,
            mouse_reporting: false,
            mouse_motion: false,
            mouse_drag: false,
            sgr_mouse: false,
            utf8_mouse: false,
            alternate_screen: false,
            alternate_scroll: false,
        }
    }
}

impl Default for TerminalModes {
    fn default() -> (modes: Self)
        ensures
            modes == TerminalModes::none(),
    {
        Self {
            application_cursor: false,
            bracketed_paste: false,
            mouse_reporting: false,
            mouse_motion: false,
            mouse_drag: false,
            sgr_mouse: false,
            utf8_mouse: false,
            alternate_screen: false,
            alternate_scroll: false,
        }
    }
}

/// The zero width characters of a cell. Nearly every cell has none, and the
/// rest fit without an allocation.
#[verifier::external_body]
#[derive(Debug, PartialEq, Eq)]
pub struct ZeroWidth {
    marks: SmallVec<[char; 2]>,
}

/// The characters that a `SmallVec` of zero width characters holds, in order.
pub uninterp spec fn zero_width_chars(marks: ZeroWidth) -> Seq<char>;

impl View for ZeroWidth {
    type V = Seq<char>;

    open spec fn view(&self) -> Seq<char> {
        zero_width_chars(*self)
    }
}

impl ZeroWidth {
    /// `SmallVec::new` gives an empty vector.
    #[verifier::external_body]
    pub(crate) fn new() -> (marks: Self)
        ensures
            zero_width_chars(marks) == Seq::<char>::empty(),
    {
        Self { marks: SmallVec::new() }
    }

    /// `SmallVec::as_slice` gives the items in order.
    #[verifier::external_body]
    pub(crate) fn as_slice(&self) -> (marks: &[char])
        ensures
            marks@ == zero_width_chars(*self),
    {
        self.marks.as_slice()
    }

    /// `SmallVec::from_slice` copies the items of a slice in order.
    #[verifier::external_body]
    pub(crate) fn from_slice(marks: &[char]) -> (copy: Self)
        ensures
            zero_width_chars(copy) == marks@,
    {
        Self { marks: SmallVec::from_slice(marks) }
    }
}

impl Clone for ZeroWidth {
    fn clone(&self) -> (copy: Self)
        ensures
            copy@ == self@,
    {
        Self::from_slice(self.as_slice())
    }
}

#[derive(Debug, PartialEq, Eq)]
pub struct TerminalCell {
    pub character: char,
    pub fg: TerminalColor,
    pub bg: TerminalColor,
    pub flags: TerminalCellFlags,
    pub zerowidth: ZeroWidth,
}

/// A cell by its values.
#[verifier::ext_equal]
pub struct CellView {
    pub character: char,
    pub fg: TerminalColor,
    pub bg: TerminalColor,
    pub style: CellStyle,
    pub zerowidth: Seq<char>,
}

impl CellView {
    /// A blank cell in the default colours.
    pub open spec fn blank() -> CellView {
        CellView {
            character: ' ',
            fg: TerminalColor::Named { value: 256 },
            bg: TerminalColor::Named { value: 257 },
            style: CellStyle::plain(),
            zerowidth: Seq::empty(),
        }
    }

    /// The text of the cell: nothing for the second half of a wide character
    /// and for the gap before one.
    pub open spec fn text(self) -> Seq<char> {
        if self.style.wide_spacer || self.style.leading_wide_spacer {
            Seq::empty()
        } else {
            seq![self.character] + self.zerowidth
        }
    }
}

impl View for TerminalCell {
    type V = CellView;

    open spec fn view(&self) -> CellView {
        CellView {
            character: self.character,
            fg: self.fg,
            bg: self.bg,
            style: self.flags@,
            zerowidth: self.zerowidth@,
        }
    }
}

impl TerminalCell {
    /// A cell with the given zero width characters.
    pub fn with_marks(
        character: char,
        fg: TerminalColor,
        bg: TerminalColor,
        flags: TerminalCellFlags,
        marks: &[char],
    ) -> (cell: Self)
        ensures
            cell@ == (CellView { character, fg, bg, style: flags@, zerowidth: marks@ }),
    {
        Self { character, fg, bg, flags, zerowidth: ZeroWidth::from_slice(marks) }
    }

    /// The zero width characters of the cell.
    pub fn marks(&self) -> (marks: &[char])
        ensures
            marks@ == self@.zerowidth,
    {
        self.zerowidth.as_slice()
    }
}

impl Clone for TerminalCell {
    fn clone(&self) -> (copy: Self)
        ensures
            copy@ == self@,
    {
        Self {
            character: self.character,
            fg: self.fg,
            bg: self.bg,
            flags: self.flags,
            zerowidth: self.zerowidth.clone(),
        }
    }
}

impl Default for TerminalCell {
    fn default() -> (cell: Self)
        ensures
            cell@ == CellView::blank(),
    {
        Self {
            character: ' ',
            fg: TerminalColor::Named { value: 256 },
            bg: TerminalColor::Named { value: 257 },
            flags: TerminalCellFlags::plain(),
            zerowidth: ZeroWidth::new(),
        }
    }
}

#[derive(Debug, Clone, Copy, PartialEq, Eq, Structural)]
pub struct TerminalCursor {
    pub row: usize,
    pub column: usize,
    pub visible: bool,
}

impl Default for TerminalCursor {
    fn default() -> (cursor: Self)
        ensures
            cursor == (TerminalCursor { row: 0, column: 0, visible: false }),
    {
        Self { row: 0, column: 0, visible: false }
    }
}

/// Cell-free projection of a terminal, safe to embed in state dumps for
/// tabs that are not currently displayed. Screen state (rows, cursor,
/// viewport) lives on the GUI's local emulator; the projection only carries
/// control-plane metadata (geometry, process, lifecycle).
#[derive(Debug, Clone, PartialEq, Eq)]
pub struct TerminalSummary {
    pub terminal_id: TerminalId,
    pub size: TerminalSize,
    pub process: TerminalProcessState,
    pub process_name: String,
    pub cwd: String,
}

pub type TerminalRowSnapshot = Arc<[TerminalCell]>;

#[derive(Debug, PartialEq, Eq)]
pub struct TerminalSnapshot {
    pub terminal_id: TerminalId,
    pub size: TerminalSize,
    /// Current foreground process name, refreshed by the PTY worker.
    pub process_name: String,
    /// Current foreground process working directory, refreshed by the PTY
    /// worker and used as the inheritance source for new shells.
    pub cwd: String,
    pub display_offset: usize,
    /// Cumulative viewport movement caused by commands or resize.
    ///
    /// Output can increase `display_offset` while a pinned viewport remains
    /// visually fixed. This independent coordinate lets consumers distinguish
    /// a user viewport move from output-driven history growth.
    pub viewport_position: i64,
    pub cursor: TerminalCursor,
    pub modes: TerminalModes,
    pub process: TerminalProcessState,
    pub revision: u64,
    /// Rows of scrollback history retained above the viewport (the grid's
    /// `total_lines - screen_lines`). The materialized `rows_before` only
    /// covers a bounded overscan window; this field is the authoritative
    /// scrollback limit the GUI may scroll to.
    pub history_len: i64,
    /// `viewport_position` of the oldest retained history row (the maximum
    /// reachable scroll target, 0 when there is no history).
    pub history_bottom: i64,
    /// Visible viewport rows. Rows are reference-counted so a viewport-only
    /// snapshot can reuse all unchanged rows from its predecessor.
    pub rows: Vec<TerminalRowSnapshot>,
    /// Available grid rows above the visible viewport, nearest first.
    pub rows_before: Vec<TerminalRowSnapshot>,
    /// Available grid rows below the visible viewport, nearest first.
    pub rows_after: Vec<TerminalRowSnapshot>,
}

/// The cells of a row.
pub open spec fn row_view(row: Seq<TerminalCell>) -> Seq<CellView> {
    row.map_values(|cell: TerminalCell| cell@)
}

/// The cells of some rows.
pub open spec fn rows_view(rows: Seq<TerminalRowSnapshot>) -> Seq<Seq<CellView>> {
    rows.map_values(|row: TerminalRowSnapshot| row_view(row@))
}

pub open spec fn blank_row(columns: int) -> Seq<CellView> {
    Seq::new(columns as nat, |column: int| CellView::blank())
}

/// A snapshot by its values.
#[verifier::ext_equal]
pub struct SnapshotView {
    pub terminal_id: TerminalId,
    pub size: TerminalSize,
    pub process_name: Seq<char>,
    pub cwd: Seq<char>,
    pub display_offset: usize,
    pub viewport_position: i64,
    pub cursor: TerminalCursor,
    pub modes: TerminalModes,
    pub process: TerminalProcessState,
    pub revision: u64,
    pub history_len: i64,
    pub history_bottom: i64,
    pub rows: Seq<Seq<CellView>>,
    pub rows_before: Seq<Seq<CellView>>,
    pub rows_after: Seq<Seq<CellView>>,
}

impl View for TerminalSnapshot {
    type V = SnapshotView;

    open spec fn view(&self) -> SnapshotView {
        SnapshotView {
            terminal_id: self.terminal_id,
            size: self.size,
            process_name: self.process_name@,
            cwd: self.cwd@,
            display_offset: self.display_offset,
            viewport_position: self.viewport_position,
            cursor: self.cursor,
            modes: self.modes,
            process: self.process,
            revision: self.revision,
            history_len: self.history_len,
            history_bottom: self.history_bottom,
            rows: rows_view(self.rows@),
            rows_before: rows_view(self.rows_before@),
            rows_after: rows_view(self.rows_after@),
        }
    }
}

impl SnapshotView {
    /// A blank screen at the bottom of an empty history.
    pub open spec fn empty(terminal_id: TerminalId, size: TerminalSize) -> SnapshotView {
        SnapshotView {
            terminal_id,
            size,
            process_name: Seq::empty(),
            cwd: Seq::empty(),
            display_offset: 0,
            viewport_position: 0,
            cursor: TerminalCursor { row: 0, column: 0, visible: false },
            modes: TerminalModes::none(),
            process: TerminalProcessState::Running,
            revision: 0,
            history_len: 0,
            history_bottom: 0,
            rows: Seq::new(size.lines as nat, |row: int| blank_row(size.columns as int)),
            rows_before: Seq::empty(),
            rows_after: Seq::empty(),
        }
    }

    /// The visible cell at a row and column.
    pub open spec fn cell_at(self, row: int, column: int) -> Option<CellView> {
        if 0 <= row < self.size.lines && 0 <= column < self.size.columns && row < self.rows.len()
            && column < self.rows[row].len() {
            Some(self.rows[row][column])
        } else {
            None
        }
    }

    /// The row at a distance from the first visible one: rows above it are
    /// negative, rows at the screen height and beyond are below it.
    pub open spec fn relative(self, row: int) -> Option<Seq<CellView>> {
        if row < 0 {
            let index = min_of(-row, i32::MAX as int) - 1;
            if index < self.rows_before.len() {
                Some(self.rows_before[index])
            } else {
                None
            }
        } else if row < self.size.lines {
            if row < self.rows.len() {
                Some(self.rows[row])
            } else {
                None
            }
        } else if row - self.size.lines < self.rows_after.len() {
            Some(self.rows_after[row - self.size.lines])
        } else {
            None
        }
    }

    /// The text of the first `columns` cells of a row.
    pub open spec fn row_text(self, row: int, columns: int) -> Seq<char>
        decreases columns,
    {
        if columns <= 0 {
            Seq::empty()
        } else {
            let before = self.row_text(row, columns - 1);
            match self.cell_at(row, columns - 1) {
                Some(cell) => before + cell.text(),
                None => before,
            }
        }
    }

    /// The text of the first `lines` rows, separated by line feeds.
    pub open spec fn text(self, lines: int) -> Seq<char>
        decreases lines,
    {
        if lines <= 0 {
            Seq::empty()
        } else if lines == 1 {
            self.row_text(0, self.size.columns as int)
        } else {
            self.text(lines - 1).push('\n') + self.row_text(lines - 1, self.size.columns as int)
        }
    }

    /// The text of the screen.
    pub open spec fn visible_text(self) -> Seq<char> {
        self.text(self.size.lines as int)
    }

    /// How many of the last visible rows a tail of at most `max_rows` keeps.
    pub open spec fn tail_rows(self, max_rows: int) -> int {
        max_of(min_of(self.size.lines as int, max_of(max_rows, 1)), 1)
    }

    /// The snapshot with only its last rows and no overscan.
    pub open spec fn tail(self, max_rows: int) -> SnapshotView {
        let keep = self.tail_rows(max_rows);
        let removed = max_of(self.size.lines - keep, 0);
        SnapshotView {
            size: TerminalSize { columns: self.size.columns, lines: keep as usize },
            display_offset: 0,
            history_len: 0,
            history_bottom: 0,
            cursor: TerminalCursor {
                row: min_of(max_of(self.cursor.row - removed, 0), keep - 1) as usize,
                ..self.cursor
            },
            rows: Seq::new(
                keep as nat,
                |row: int|
                    if removed + row < self.rows.len() {
                        self.rows[removed + row]
                    } else {
                        blank_row(self.size.columns as int)
                    },
            ),
            rows_before: Seq::empty(),
            rows_after: Seq::empty(),
            ..self
        }
    }
}

/// How many cells some rows hold.
pub open spec fn cells_in(rows: Seq<Seq<CellView>>) -> int
    decreases rows.len(),
{
    if rows.len() == 0 {
        0
    } else {
        cells_in(rows.drop_last()) + rows.last().len()
    }
}

/// `Arc::make_mut` gives write access to shared items: in place where nothing
/// else shares them, otherwise to a clone of each, which the row then holds.
#[verifier::external_body]
fn unshared_row(row: &mut TerminalRowSnapshot) -> (cells: &mut [TerminalCell])
    ensures
        row_view(cells@) == row_view(old(row)@),
        final(row)@ == final(cells)@,
{
    Arc::make_mut(row)
}

proof fn lemma_row_view_update(cells: Seq<TerminalCell>, column: int)
    requires
        0 <= column < cells.len(),
    ensures
        forall|cell: TerminalCell| #[trigger]
            row_view(cells.update(column, cell)) == row_view(cells).update(column, cell@),
{
    assert forall|cell: TerminalCell| #[trigger]
        row_view(cells.update(column, cell)) == row_view(cells).update(column, cell@) by {
        assert(row_view(cells.update(column, cell)) =~= row_view(cells).update(column, cell@));
    }
}

proof fn lemma_rows_view_update(rows: Seq<TerminalRowSnapshot>, row: int)
    requires
        0 <= row < rows.len(),
    ensures
        forall|cells: TerminalRowSnapshot| #[trigger]
            rows_view(rows.update(row, cells)) == rows_view(rows).update(row, row_view(cells@)),
{
    assert forall|cells: TerminalRowSnapshot| #[trigger]
        rows_view(rows.update(row, cells)) == rows_view(rows).update(row, row_view(cells@)) by {
        assert(rows_view(rows.update(row, cells)) =~= rows_view(rows).update(
            row,
            row_view(cells@),
        ));
    }
}

fn blank_cells(columns: usize) -> (row: TerminalRowSnapshot)
    ensures
        row_view(row@) == blank_row(columns as int),
{
    let mut cells: Vec<TerminalCell> = Vec::new();
    while cells.len() < columns
        invariant
            cells@.len() <= columns,
            forall|i: int| 0 <= i < cells@.len() ==> (#[trigger] cells@[i])@ == CellView::blank(),
        decreases columns - cells@.len(),
    {
        cells.push(TerminalCell::default());
    }
    assert(row_view(cells@) =~= blank_row(columns as int));
    share(cells)
}

/// The cell of a flat run of cells that belongs at a row and column.
pub open spec fn flat_cell(cells: Seq<TerminalCell>, at: int) -> CellView {
    if 0 <= at < cells.len() {
        cells[at]@
    } else {
        CellView::blank()
    }
}

/// Lays a flat run of cells out in rows; missing cells are blank.
pub fn rows_from_flat_cells(cells: Vec<TerminalCell>, size: TerminalSize) -> (rows: Vec<
    TerminalRowSnapshot,
>)
    requires
        size.columns * size.lines <= usize::MAX,
    ensures
        rows_view(rows@) == Seq::new(
            size.lines as nat,
            |row: int|
                Seq::new(
                    size.columns as nat,
                    |column: int| flat_cell(cells@, row * size.columns + column),
                ),
        ),
{
    let ghost laid_out = Seq::new(
        size.lines as nat,
        |row: int|
            Seq::new(
                size.columns as nat,
                |column: int| flat_cell(cells@, row * size.columns + column),
            ),
    );
    let mut rows: Vec<TerminalRowSnapshot> = Vec::new();
    let mut at: usize = 0;
    while rows.len() < size.lines
        invariant
            rows@.len() <= size.lines,
            at == rows@.len() * size.columns,
            size.columns * size.lines <= usize::MAX,
            laid_out == Seq::new(
                size.lines as nat,
                |row: int|
                    Seq::new(
                        size.columns as nat,
                        |column: int| flat_cell(cells@, row * size.columns + column),
                    ),
            ),
            forall|i: int| 0 <= i < rows@.len() ==> row_view((#[trigger] rows@[i])@) == laid_out[i],
        decreases size.lines - rows@.len(),
    {
        let ghost row_index = rows@.len() as int;
        assert((row_index + 1) * size.columns == row_index * size.columns + size.columns)
            by (nonlinear_arith);
        assert((row_index + 1) * size.columns <= size.columns * size.lines) by (nonlinear_arith)
            requires
                row_index + 1 <= size.lines,
        ;
        let mut row: Vec<TerminalCell> = Vec::new();
        while row.len() < size.columns
            invariant
                row@.len() <= size.columns,
                at == row_index * size.columns + row@.len(),
                row_index * size.columns + size.columns <= usize::MAX,
                forall|i: int|
                    0 <= i < row@.len() ==> (#[trigger] row@[i])@ == flat_cell(
                        cells@,
                        row_index * size.columns + i,
                    ),
            decreases size.columns - row@.len(),
        {
            if at < cells.len() {
                row.push(cells[at].clone());
            } else {
                row.push(TerminalCell::default());
            }
            at = at + 1;
        }
        assert(row_view(row@) =~= laid_out[row_index]);
        rows.push(share(row));
    }
    assert(rows_view(rows@) =~= laid_out);
    rows
}

fn push_cell_text(text: &mut String, cell: &TerminalCell)
    ensures
        final(text)@ == old(text)@ + cell@.text(),
{
    if cell.flags.wide_spacer() || cell.flags.leading_wide_spacer() {
        assert(text@ =~= old(text)@ + cell@.text());
        return;
    }
    text.push(cell.character);
    let marks: &[char] = cell.marks();
    let mut i: usize = 0;
    while i < marks.len()
        invariant
            i <= marks@.len(),
            text@ == old(text)@.push(cell.character) + marks@.take(i as int),
        decreases marks@.len() - i,
    {
        text.push(marks[i]);
        i = i + 1;
        assert(text@ =~= old(text)@.push(cell.character) + marks@.take(i as int));
    }
    assert(text@ =~= old(text)@ + cell@.text());
}

impl TerminalSnapshot {
    pub fn empty(terminal_id: TerminalId, size: TerminalSize) -> (snapshot: Self)
        ensures
            snapshot@ == SnapshotView::empty(terminal_id, size),
    {
        let mut rows: Vec<TerminalRowSnapshot> = Vec::new();
        while rows.len() < size.lines
            invariant
                rows@.len() <= size.lines,
                forall|i: int|
                    0 <= i < rows@.len() ==> row_view((#[trigger] rows@[i])@) == blank_row(
                        size.columns as int,
                    ),
            decreases size.lines - rows@.len(),
        {
            rows.push(blank_cells(size.columns));
        }
        let snapshot = Self {
            terminal_id,
            size,
            process_name: String::new(),
            cwd: String::new(),
            display_offset: 0,
            viewport_position: 0,
            cursor: TerminalCursor::default(),
            modes: TerminalModes::default(),
            process: TerminalProcessState::Running,
            revision: 0,
            history_len: 0,
            history_bottom: 0,
            rows,
            rows_before: Vec::new(),
            rows_after: Vec::new(),
        };
        assert(snapshot@ =~= SnapshotView::empty(terminal_id, size));
        snapshot
    }

    pub fn cell(&self, row: usize, column: usize) -> (cell: Option<&TerminalCell>)
        ensures
            match cell {
                Some(cell) => self@.cell_at(row as int, column as int) == Some(cell@),
                None => self@.cell_at(row as int, column as int) is None,
            },
    {
        if row >= self.size.lines || column >= self.size.columns {
            return None;
        }
        if row >= self.rows.len() || column >= self.rows[row].len() {
            return None;
        }
        Some(&self.rows[row][column])
    }

    /// Write access to a visible cell. A row that other snapshots share is
    /// copied first.
    pub fn cell_mut(&mut self, row: usize, column: usize) -> (cell: Option<&mut TerminalCell>)
        ensures
            match cell {
                Some(cell) => {
                    &&& old(self)@.cell_at(row as int, column as int) == Some(cell@)
                    &&& final(self)@ == (SnapshotView {
                        rows: old(self)@.rows.update(
                            row as int,
                            old(self)@.rows[row as int].update(column as int, final(cell)@),
                        ),
                        ..old(self)@
                    })
                },
                None => old(self)@.cell_at(row as int, column as int) is None && *final(self)
                    == *old(self),
            },
    {
        if row >= self.size.lines || column >= self.size.columns {
            return None;
        }
        if row >= self.rows.len() || column >= self.rows[row].len() {
            return None;
        }
        proof {
            lemma_rows_view_update(self.rows@, row as int);
        }
        let cells = unshared_row(&mut self.rows[row]);
        proof {
            assert(row_view(cells@)[column as int] == cells@[column as int]@);
            lemma_row_view_update(cells@, column as int);
        }
        Some(&mut cells[column])
    }

    /// How many visible cells the snapshot stores.
    pub fn cell_count(&self) -> (count: usize)
        requires
            cells_in(self@.rows) <= usize::MAX,
        ensures
            count == cells_in(self@.rows),
    {
        let mut count: usize = 0;
        let mut i: usize = 0;
        assert(self@.rows.take(0) =~= Seq::empty());
        while i < self.rows.len()
            invariant
                i <= self.rows@.len(),
                count == cells_in(self@.rows.take(i as int)),
                cells_in(self@.rows) <= usize::MAX,
            decreases self.rows@.len() - i,
        {
            proof {
                assert(self@.rows.take(i + 1).drop_last() =~= self@.rows.take(i as int));
                lemma_cells_in_prefix(self@.rows, i + 1);
            }
            count = count + self.rows[i].len();
            i = i + 1;
        }
        assert(self@.rows.take(i as int) =~= self@.rows);
        count
    }

    /// Returns a row relative to the visible viewport. Negative rows address
    /// `rows_before`, visible rows address `rows`, and rows at or beyond the
    /// screen height address `rows_after`.
    pub fn relative_row(&self, row: i32) -> (cells: Option<&[TerminalCell]>)
        ensures
            match cells {
                Some(cells) => self@.relative(row as int) == Some(row_view(cells@)),
                None => self@.relative(row as int) is None,
            },
    {
        match self.relative_row_snapshot(row) {
            Some(cells) => Some(&**cells),
            None => None,
        }
    }

    pub fn relative_row_snapshot(&self, row: i32) -> (cells: Option<&TerminalRowSnapshot>)
        ensures
            match cells {
                Some(cells) => self@.relative(row as int) == Some(row_view(cells@)),
                None => self@.relative(row as int) is None,
            },
    {
        if row < 0 {
            let distance: i32 = if row == i32::MIN {
                i32::MAX
            } else {
                -row
            };
            let index: usize = (distance - 1) as usize;
            return if index < self.rows_before.len() {
                Some(&self.rows_before[index])
            } else {
                None
            };
        }
        let row: usize = row as usize;
        if row < self.size.lines {
            return if row < self.rows.len() {
                Some(&self.rows[row])
            } else {
                None
            };
        }
        let below: usize = row - self.size.lines;
        if below < self.rows_after.len() {
            Some(&self.rows_after[below])
        } else {
            None
        }
    }

    /// The text of the screen, row by row.
    pub fn visible_text(&self) -> (text: String)
        ensures
            text@ == self@.visible_text(),
    {
        let mut text = String::new();
        let mut row: usize = 0;
        while row < self.size.lines
            invariant
                row <= self.size.lines,
                text@ == self@.text(row as int),
            decreases self.size.lines - row,
        {
            if row > 0 {
                text.push('\n');
            }
            let ghost start = text@;
            let mut column: usize = 0;
            assert(start + self@.row_text(row as int, 0) =~= start);
            while column < self.size.columns
                invariant
                    column <= self.size.columns,
                    text@ == start + self@.row_text(row as int, column as int),
                decreases self.size.columns - column,
            {
                if let Some(cell) = self.cell(row, column) {
                    push_cell_text(&mut text, cell);
                }
                assert(text@ =~= start + self@.row_text(row as int, column + 1));
                column = column + 1;
            }
            assert(text@ =~= self@.text(row + 1));
            row = row + 1;
        }
        text
    }

    /// Whether `needle` stands in the text of the screen.
    pub fn contains_text(&self, needle: &str) -> (found: bool)
        ensures
            found == has_run(encode_utf8(self@.visible_text()), encode_utf8(needle@)),
    {
        let text: String = self.visible_text();
        contains_bytes(text.as_str().as_bytes(), needle.as_bytes())
    }

    /// Cheap, cell-free projection of this snapshot's identity and metadata.
    pub fn summary(&self) -> (summary: TerminalSummary)
        ensures
            summary.terminal_id == self.terminal_id,
            summary.size == self.size,
            summary.process == self.process,
            summary.process_name@ == self@.process_name,
            summary.cwd@ == self@.cwd,
    {
        TerminalSummary {
            terminal_id: self.terminal_id,
            size: self.size,
            process: self.process,
            process_name: self.process_name.clone(),
            cwd: self.cwd.clone(),
        }
    }

    /// Rebuilds this snapshot keeping only its last `max_rows` viewport rows,
    /// dropping overscan context. Used when retiring a closed terminal so
    /// race-window waiters still see the visible tail without pinning the
    /// full grid in memory.
    pub fn compacted_tail(&self, max_rows: usize) -> (tail: Self)
        ensures
            tail@ == self@.tail(max_rows as int),
    {
        let lines: usize = self.size.lines;
        let keep: usize = lines.min(max_rows.max(1)).max(1);
        let removed: usize = lines.saturating_sub(keep);
        let mut rows: Vec<TerminalRowSnapshot> = Vec::new();
        while rows.len() < keep
            invariant
                rows@.len() <= keep,
                removed + keep <= usize::MAX,
                forall|i: int|
                    0 <= i < rows@.len() ==> row_view((#[trigger] rows@[i])@) == (if removed + i
                        < self.rows@.len() {
                        self@.rows[removed + i]
                    } else {
                        blank_row(self.size.columns as int)
                    }),
            decreases keep - rows@.len(),
        {
            let at: usize = removed + rows.len();
            if at < self.rows.len() {
                rows.push(self.rows[at].clone());
            } else {
                rows.push(blank_cells(self.size.columns));
            }
        }
        let tail = Self {
            terminal_id: self.terminal_id,
            size: TerminalSize { columns: self.size.columns, lines: keep },
            process_name: self.process_name.clone(),
            cwd: self.cwd.clone(),
            // The retired history is gone, so any pinned viewport is moot.
            display_offset: 0,
            viewport_position: self.viewport_position,
            history_len: 0,
            history_bottom: 0,
            cursor: TerminalCursor {
                row: self.cursor.row.saturating_sub(removed).min(keep - 1),
                column: self.cursor.column,
                visible: self.cursor.visible,
            },
            modes: self.modes,
            process: self.process,
            revision: self.revision,
            rows,
            rows_before: Vec::new(),
            rows_after: Vec::new(),
        };
        assert(tail@.rows =~= self@.tail(max_rows as int).rows);
        assert(tail@ =~= self@.tail(max_rows as int));
        tail
    }
}

proof fn lemma_cells_in_prefix(rows: Seq<Seq<CellView>>, end: int)
    requires
        0 <= end <= rows.len(),
    ensures
        cells_in(rows.take(end)) <= cells_in(rows),
    decreases rows.len() - end,
{
    if end < rows.len() {
        assert(rows.take(end + 1).drop_last() =~= rows.take(end));
        lemma_cells_in_prefix(rows, end + 1);
    } else {
        assert(rows.take(end) =~= rows);
    }
}

fn copy_rows(rows: &Vec<TerminalRowSnapshot>) -> (copy: Vec<TerminalRowSnapshot>)
    ensures
        copy@ == rows@,
{
    let mut copy: Vec<TerminalRowSnapshot> = Vec::new();
    let mut i: usize = 0;
    while i < rows.len()
        invariant
            i <= rows@.len(),
            copy@ == rows@.take(i as int),
        decreases rows@.len() - i,
    {
        copy.push(rows[i].clone());
        i = i + 1;
        assert(copy@ =~= rows@.take(i as int));
    }
    assert(rows@.take(i as int) =~= rows@);
    copy
}

impl Clone for TerminalSnapshot {
    fn clone(&self) -> (copy: Self)
        ensures
            copy@ == self@,
    {
        Self {
            terminal_id: self.terminal_id,
            size: self.size,
            process_name: self.process_name.clone(),
            cwd: self.cwd.clone(),
            display_offset: self.display_offset,
            viewport_position: self.viewport_position,
            cursor: self.cursor,
            modes: self.modes,
            process: self.process,
            revision: self.revision,
            history_len: self.history_len,
            history_bottom: self.history_bottom,
            rows: copy_rows(&self.rows),
            rows_before: copy_rows(&self.rows_before),
            rows_after: copy_rows(&self.rows_after),
        }
    }
}

/// The text of a screen is that of its rows from the top, a line feed between
/// each and the next one, and the text of a row is that of its cells from the
/// left: a cell shows its character and the marks on it, and the second half of
/// a wide character and the gap before one show nothing.
pub proof fn a_screen_reads_row_by_row(snapshot: SnapshotView, row: int, column: int)
    requires
        1 <= row,
        0 <= column,
    ensures
        snapshot.visible_text() == snapshot.text(snapshot.size.lines as int),
        snapshot.text(1) == snapshot.row_text(0, snapshot.size.columns as int),
        snapshot.text(row + 1) == snapshot.text(row) + seq!['\n'] + snapshot.row_text(
            row,
            snapshot.size.columns as int,
        ),
        snapshot.row_text(row, 0) == Seq::<char>::empty(),
        snapshot.row_text(row, column + 1) == snapshot.row_text(row, column) + match snapshot.cell_at(
            row,
            column,
        ) {
            Some(cell) => if cell.style.wide_spacer || cell.style.leading_wide_spacer {
                Seq::empty()
            } else {
                seq![cell.character] + cell.zerowidth
            },
            None => Seq::empty(),
        },
        snapshot.cell_at(row, column) == (if row < snapshot.size.lines && column
            < snapshot.size.columns && row < snapshot.rows.len() && column
            < snapshot.rows[row].len() {
            Some(snapshot.rows[row][column])
        } else {
            None
        }),
{
    let before = snapshot.row_text(row, column);
    assert(before + Seq::<char>::empty() =~= before);
    assert(snapshot.text(row + 1) =~= snapshot.text(row) + seq!['\n'] + snapshot.row_text(
        row,
        snapshot.size.columns as int,
    ));
}

/// The tail of a screen is its last rows, as many as were asked for and it has,
/// at least one, and the cursor stays on the row that it stands on.
pub proof fn a_tail_is_the_last_rows(snapshot: SnapshotView, most: int, row: int)
    requires
        snapshot.size.within_limits(),
        snapshot.rows.len() == snapshot.size.lines,
        1 <= most,
        0 <= row < most,
        row < snapshot.size.lines,
        snapshot.cursor.row < snapshot.size.lines,
    ensures
        ({
            let tail = snapshot.tail(most);
            let lines = snapshot.size.lines as int;
            &&& tail.size.lines == min_of(lines, most)
            &&& tail.size.columns == snapshot.size.columns
            &&& tail.rows.len() == min_of(lines, most)
            &&& tail.rows[tail.rows.len() - 1 - row] == snapshot.rows[lines - 1 - row]
            &&& tail.rows_before.len() == 0 && tail.rows_after.len() == 0
            &&& tail.terminal_id == snapshot.terminal_id
            &&& tail.modes == snapshot.modes
            &&& tail.cursor.column == snapshot.cursor.column
            &&& tail.cursor.visible == snapshot.cursor.visible
            &&& snapshot.cursor.row >= lines - min_of(lines, most) ==> lines - snapshot.cursor.row
                == tail.size.lines - tail.cursor.row
        }),
{
}

/// A size is kept where a terminal can have it: from two to 512 columns and from
/// one to 256 lines; beyond that it is the nearest that it can have.
pub proof fn sizes_stay_within_limits(columns: int, lines: int)
    ensures
        ({
            let size = TerminalSize::clamped_size(columns, lines);
            &&& size.within_limits()
            &&& 2 <= columns <= 512 ==> size.columns == columns
            &&& columns < 2 ==> size.columns == 2
            &&& columns > 512 ==> size.columns == 512
            &&& 1 <= lines <= 256 ==> size.lines == lines
            &&& lines < 1 ==> size.lines == 1
            &&& lines > 256 ==> size.lines == 256
        }),
{
}

/// Rows are found by their distance from the first one on the screen: those above
/// it backwards, those below the last one onwards.
pub proof fn rows_are_found_around_the_screen(snapshot: SnapshotView, at: int)
    requires
        0 <= at < i32::MAX,
        snapshot.rows.len() == snapshot.size.lines,
    ensures
        at < snapshot.rows_before.len() ==> snapshot.relative(-1 - at) == Some(
            snapshot.rows_before[at],
        ),
        at < snapshot.size.lines ==> snapshot.relative(at) == Some(snapshot.rows[at]),
        at < snapshot.rows_after.len() ==> snapshot.relative(snapshot.size.lines + at) == Some(
            snapshot.rows_after[at],
        ),
        at >= snapshot.rows_after.len() ==> snapshot.relative(snapshot.size.lines + at) is None,
{
}

/// An empty screen has its size and shows blanks: spaces in the terminal's own
/// colours and without a style.
pub proof fn an_empty_screen_is_blank(
    id: TerminalId,
    size: TerminalSize,
    row: int,
    column: int,
)
    requires
        0 <= row < size.lines,
        0 <= column < size.columns,
    ensures
        ({
            let snapshot = SnapshotView::empty(id, size);
            let cell = snapshot.cell_at(row, column);
            &&& snapshot.size == size
            &&& snapshot.terminal_id == id
            &&& cell is Some
            &&& cell->0.character == ' '
            &&& cell->0.fg == (TerminalColor::Named { value: 256 })
            &&& cell->0.bg == (TerminalColor::Named { value: 257 })
            &&& cell->0.zerowidth.len() == 0
            &&& !cell->0.style.inverse && !cell->0.style.bold && !cell->0.style.wide
            &&& !cell->0.style.wide_spacer && !cell->0.style.leading_wide_spacer
            &&& !snapshot.cursor.visible
        }),
{
}

/// A cell reads as its character and the marks on it; the places that a wide
/// character leaves empty read as nothing.
pub proof fn a_cell_reads_as_its_character(cell: CellView)
    ensures
        !cell.style.wide_spacer && !cell.style.leading_wide_spacer ==> cell.text() == seq![
            cell.character,
        ] + cell.zerowidth,
        cell.style.wide_spacer || cell.style.leading_wide_spacer ==> cell.text().len() == 0,
{
}

/// A terminal starts without any mode.
pub proof fn no_mode_is_set_at_first()
    ensures
        ({
            let modes = TerminalModes::none();
            &&& !modes.application_cursor && !modes.bracketed_paste && !modes.mouse_reporting
            &&& !modes.mouse_motion && !modes.mouse_drag && !modes.sgr_mouse && !modes.utf8_mouse
            &&& !modes.alternate_screen && !modes.alternate_scroll
        }),
{
}

/// A cell that a list has is taken as it is, and one that it lacks is blank.
pub proof fn missing_cells_are_blank(cells: Seq<TerminalCell>, at: int)
    ensures
        0 <= at < cells.len() ==> flat_cell(cells, at) == cells[at]@,
        at >= cells.len() ==> flat_cell(cells, at).character == ' ' && flat_cell(cells, at).fg == (
        TerminalColor::Named { value: 256 }) && flat_cell(cells, at).bg == (TerminalColor::Named {
            value: 257,
        }),
{
}

/// A row costs its cells and 64 bytes more.
pub proof fn a_row_costs_its_cells(columns: int)
    requires
        columns >= 1,
    ensures
        row_cost(columns) == columns * vstd::layout::size_of::<Cell>() + 64,
{
}

} // verus!
