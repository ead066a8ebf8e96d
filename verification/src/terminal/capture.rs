//! Taking a snapshot of the emulator's grid.
use alacritty_terminal::grid::Grid;
use alacritty_terminal::term::cell::Cell;
use vstd::prelude::*;

use super::grid::{
    cursor_shown, grid_cells, grid_shape, modes_of_bits, read_cell, read_cursor_shown, read_modes,
    read_shape, read_style, style_of_bits, GridCell, GridCellView, GridShape,
};
use super::snapshot::{
    row_view, rows_view, CellStyle, CellView, SnapshotView, TerminalCell, TerminalCellFlags,
    TerminalCursor, TerminalProcessState, TerminalRowSnapshot, TerminalSize, TerminalSnapshot,
    VIEWPORT_OVERSCAN_ROWS,
};
use crate::ids::TerminalId;
use crate::num::{clamped, min_of, saturating_add_i64, saturating_sub_i64};
use crate::shared::share;

verus! {

/// A cell of the grid as a cell of a snapshot.
pub open spec fn cell_of_grid(cell: GridCellView) -> CellView {
    CellView {
        character: cell.character,
        fg: cell.fg,
        bg: cell.bg,
        style: style_of_bits(cell.flags),
        zerowidth: cell.zerowidth,
    }
}

/// The first cells of a line of the grid.
pub open spec fn grid_row(cells: Map<(int, int), GridCellView>, line: int, columns: int) -> Seq<
    CellView,
> {
    Seq::new(columns as nat, |column: int| cell_of_grid(cells[(line, column)]))
}

/// `value` brought into the range of `i64`.
pub open spec fn saturated(value: int) -> int {
    clamped(value, i64::MIN as int, i64::MAX as int)
}

/// The previous snapshot holds this very row where it stood at the time.
/// `row` counts from the first visible row of the new snapshot.
pub open spec fn reusable(
    previous: Option<SnapshotView>,
    viewport_position: int,
    row: int,
    cells: Seq<CellView>,
) -> bool {
    match previous {
        Some(previous) => {
            let relative = saturated(
                saturated(row - viewport_position) + previous.viewport_position,
            );
            i32::MIN <= relative <= i32::MAX && previous.relative(relative) == Some(cells)
        },
        None => false,
    }
}

/// A run of rows of a new snapshot, from the row `first` up or down.
pub struct RowRun {
    pub first: int,
    pub down: bool,
    pub count: int,
}

impl RowRun {
    /// The row at a position of the run, counted from the first visible row.
    pub open spec fn row(self, position: int) -> int {
        if self.down {
            self.first + position
        } else {
            self.first - position
        }
    }
}

/// The cells of a run of rows.
pub open spec fn run_cells(
    shape: GridShape,
    cells: Map<(int, int), GridCellView>,
    run: RowRun,
) -> Seq<Seq<CellView>> {
    Seq::new(
        run.count as nat,
        |position: int|
            grid_row(
                cells,
                run.row(position) - shape.display_offset,
                shape.size().columns as int,
            ),
    )
}

/// How many cells of the first `count` rows of a run are not taken over from
/// the previous snapshot.
pub open spec fn fresh_cells(
    shape: GridShape,
    cells: Map<(int, int), GridCellView>,
    run: RowRun,
    previous: Option<SnapshotView>,
    viewport_position: int,
    count: int,
) -> int
    decreases count,
{
    if count <= 0 {
        0
    } else {
        let row = run.row(count - 1);
        let columns = shape.size().columns as int;
        let row_cells = grid_row(cells, row - shape.display_offset, columns);
        fresh_cells(shape, cells, run, previous, viewport_position, count - 1) + (if reusable(
            previous,
            viewport_position,
            row,
            row_cells,
        ) {
            0
        } else {
            columns
        })
    }
}

impl GridShape {
    /// A snapshot can be taken: the grid has at least the smallest size of a
    /// terminal, displays lines that it holds, and its numbers fit the
    /// emulator's line numbers.
    pub open spec fn fits(self) -> bool {
        &&& 2 <= self.columns
        &&& 1 <= self.screen_lines
        &&& self.is_numbered()
        &&& self.display_offset <= self.history()
    }

    /// The size of a snapshot of the grid.
    pub open spec fn size(self) -> TerminalSize {
        TerminalSize::clamped_size(self.columns as int, self.screen_lines as int)
    }

    /// The visible rows of a snapshot.
    pub open spec fn visible(self) -> RowRun {
        RowRun { first: 0, down: true, count: self.size().lines as int }
    }

    /// The rows above the visible ones, nearest first.
    pub open spec fn above(self) -> RowRun {
        RowRun {
            first: -1,
            down: false,
            count: min_of(self.history() - self.display_offset, VIEWPORT_OVERSCAN_ROWS as int),
        }
    }

    /// The rows below the visible ones, nearest first.
    pub open spec fn below(self) -> RowRun {
        RowRun {
            first: self.size().lines as int,
            down: true,
            count: min_of(
                self.screen_lines - self.size().lines + self.display_offset,
                VIEWPORT_OVERSCAN_ROWS as int,
            ),
        }
    }

    /// The cursor as the snapshot shows it.
    pub open spec fn cursor(self, mode: u32) -> TerminalCursor {
        let row = self.cursor_line + self.display_offset;
        TerminalCursor {
            row: if row < 0 {
                usize::MAX
            } else {
                row as usize
            },
            column: min_of(self.cursor_column as int, self.size().columns - 1) as usize,
            visible: cursor_shown(mode) && 0 <= row < self.size().lines,
        }
    }
}

/// The snapshot of a grid whose emulator is in the given mode.
pub open spec fn grid_snapshot(
    terminal_id: TerminalId,
    shape: GridShape,
    cells: Map<(int, int), GridCellView>,
    mode: u32,
    process: TerminalProcessState,
    revision: u64,
    viewport_position: i64,
) -> SnapshotView {
    SnapshotView {
        terminal_id,
        size: shape.size(),
        process_name: Seq::empty(),
        cwd: Seq::empty(),
        display_offset: shape.display_offset,
        viewport_position,
        cursor: shape.cursor(mode),
        modes: modes_of_bits(mode),
        process,
        revision,
        history_len: shape.history() as i64,
        history_bottom: shape.history() as i64,
        rows: run_cells(shape, cells, shape.visible()),
        rows_before: run_cells(shape, cells, shape.above()),
        rows_after: run_cells(shape, cells, shape.below()),
    }
}

/// How many cells of that snapshot are not taken over from the previous one.
pub open spec fn materialized_cells(
    shape: GridShape,
    cells: Map<(int, int), GridCellView>,
    previous: Option<SnapshotView>,
    viewport_position: int,
) -> int {
    let visible = shape.visible();
    let above = shape.above();
    let below = shape.below();
    fresh_cells(shape, cells, visible, previous, viewport_position, visible.count) + fresh_cells(
        shape,
        cells,
        above,
        previous,
        viewport_position,
        above.count,
    ) + fresh_cells(shape, cells, below, previous, viewport_position, below.count)
}

/// The values of an optional snapshot.
pub open spec fn snapshot_of(snapshot: Option<&TerminalSnapshot>) -> Option<SnapshotView> {
    match snapshot {
        Some(snapshot) => Some(snapshot@),
        None => None,
    }
}

fn cell_from_grid(cell: &GridCell) -> (converted: TerminalCell)
    ensures
        converted@ == cell_of_grid(cell@),
{
    TerminalCell::with_marks(
        cell.character,
        cell.fg,
        cell.bg,
        TerminalCellFlags::from_alacritty(cell.flags),
        cell.zerowidth.as_slice(),
    )
}

fn same_marks(a: &[char], b: &[char]) -> (same: bool)
    ensures
        same == (a@ == b@),
{
    if a.len() != b.len() {
        return false;
    }
    let mut i: usize = 0;
    while i < a.len()
        invariant
            i <= a@.len(),
            a@.len() == b@.len(),
            forall|k: int| 0 <= k < i ==> a@[k] == b@[k],
        decreases a@.len() - i,
    {
        if a[i] != b[i] {
            return false;
        }
        i = i + 1;
    }
    assert(a@ =~= b@);
    true
}

fn cell_matches_grid(snapshot: &TerminalCell, cell: &GridCell) -> (matches: bool)
    ensures
        matches == (snapshot@ == cell_of_grid(cell@)),
{
    let matches: bool = snapshot.character == cell.character && snapshot.fg == cell.fg
        && snapshot.bg == cell.bg && snapshot.flags.style() == read_style(cell.flags)
        && same_marks(snapshot.marks(), cell.zerowidth.as_slice());
    assert(matches ==> snapshot@ =~= cell_of_grid(cell@));
    matches
}

/// Whether a stored row holds the first cells of a line of the grid.
fn row_matches_grid(row: &[TerminalCell], grid: &Grid<Cell>, line: i32, columns: usize) -> (matches:
    bool)
    requires
        grid_shape(*grid).has_line(line as int),
        grid_shape(*grid).is_numbered(),
        columns <= grid_shape(*grid).columns,
    ensures
        matches == (row_view(row@) == grid_row(grid_cells(*grid), line as int, columns as int)),
{
    let ghost cells = grid_row(grid_cells(*grid), line as int, columns as int);
    if row.len() != columns {
        assert(row_view(row@).len() != cells.len());
        return false;
    }
    let mut column: usize = 0;
    while column < columns
        invariant
            column <= columns,
            row@.len() == columns,
            grid_shape(*grid).has_line(line as int),
            grid_shape(*grid).is_numbered(),
            columns <= grid_shape(*grid).columns,
            cells == grid_row(grid_cells(*grid), line as int, columns as int),
            forall|k: int| 0 <= k < column ==> row_view(row@)[k] == cells[k],
        decreases columns - column,
    {
        if !cell_matches_grid(&row[column], &read_cell(grid, line, column)) {
            assert(row_view(row@)[column as int] != cells[column as int]);
            return false;
        }
        column = column + 1;
    }
    assert(row_view(row@) =~= cells);
    true
}

/// The first cells of a line of the grid, taken over from the previous
/// snapshot where it holds them; `fresh` counts the cells that are not.
fn row_from_grid(
    grid: &Grid<Cell>,
    line: i32,
    columns: usize,
    previous: Option<&TerminalSnapshot>,
    viewport_position: i64,
    row: i64,
    fresh: &mut usize,
) -> (cells: TerminalRowSnapshot)
    requires
        grid_shape(*grid).has_line(line as int),
        grid_shape(*grid).is_numbered(),
        columns <= grid_shape(*grid).columns,
        *old(fresh) + columns <= usize::MAX,
    ensures
        row_view(cells@) == grid_row(grid_cells(*grid), line as int, columns as int),
        *final(fresh) == *old(fresh) + (if reusable(
            snapshot_of(previous),
            viewport_position as int,
            row as int,
            grid_row(grid_cells(*grid), line as int, columns as int),
        ) {
            0
        } else {
            columns as int
        }),
{
    // Reuse an unchanged row from the previous snapshot when the row is
    // actually present in that snapshot's storage. The previous snapshot
    // only stores rows within its own overscan window, so a row that was
    // scrolled out of that window must be materialized fresh.
    if let Some(previous) = previous {
        let relative: i64 = saturating_add_i64(
            saturating_sub_i64(row, viewport_position),
            previous.viewport_position,
        );
        if i32::MIN as i64 <= relative && relative <= i32::MAX as i64 {
            if let Some(stored) = previous.relative_row_snapshot(relative as i32) {
                if row_matches_grid(&**stored, grid, line, columns) {
                    return stored.clone();
                }
            }
        }
    }
    *fresh = *fresh + columns;
    let ghost expected = grid_row(grid_cells(*grid), line as int, columns as int);
    let mut cells: Vec<TerminalCell> = Vec::new();
    while cells.len() < columns
        invariant
            cells@.len() <= columns,
            grid_shape(*grid).has_line(line as int),
            grid_shape(*grid).is_numbered(),
            columns <= grid_shape(*grid).columns,
            expected == grid_row(grid_cells(*grid), line as int, columns as int),
            forall|k: int| 0 <= k < cells@.len() ==> (#[trigger] cells@[k])@ == expected[k],
        decreases columns - cells@.len(),
    {
        let cell: GridCell = read_cell(grid, line, cells.len());
        cells.push(cell_from_grid(&cell));
    }
    assert(row_view(cells@) =~= expected);
    share(cells)
}

/// A run of rows of a new snapshot.
fn rows_from_grid(
    grid: &Grid<Cell>,
    shape: GridShape,
    first: i32,
    down: bool,
    count: usize,
    previous: Option<&TerminalSnapshot>,
    viewport_position: i64,
    fresh: &mut usize,
) -> (rows: Vec<TerminalRowSnapshot>)
    requires
        shape == grid_shape(*grid),
        shape.fits(),
        count <= 256,
        -1 <= first <= 256,
        ({
            let run = RowRun { first: first as int, down, count: count as int };
            &&& forall|position: int|
                0 <= position < count ==> shape.has_line(
                    #[trigger] run.row(position) - shape.display_offset,
                )
        }),
        *old(fresh) + count * 512 <= usize::MAX,
    ensures
        ({
            let run = RowRun { first: first as int, down, count: count as int };
            &&& rows_view(rows@) == run_cells(shape, grid_cells(*grid), run)
            &&& *final(fresh) == *old(fresh) + fresh_cells(
                shape,
                grid_cells(*grid),
                run,
                snapshot_of(previous),
                viewport_position as int,
                count as int,
            )
            &&& *final(fresh) <= *old(fresh) + count * 512
        }),
{
    let ghost run = RowRun { first: first as int, down, count: count as int };
    let columns: usize = TerminalSize::new(shape.columns, shape.screen_lines).columns;
    let offset: i32 = shape.display_offset as i32;
    let ghost expected = run_cells(shape, grid_cells(*grid), run);
    let mut rows: Vec<TerminalRowSnapshot> = Vec::new();
    while rows.len() < count
        invariant
            rows@.len() <= count <= 256,
            -1 <= first <= 256,
            shape == grid_shape(*grid),
            shape.fits(),
            offset == shape.display_offset,
            columns == shape.size().columns,
            run == (RowRun { first: first as int, down, count: count as int }),
            expected == run_cells(shape, grid_cells(*grid), run),
            forall|position: int|
                0 <= position < count ==> shape.has_line(
                    #[trigger] run.row(position) - shape.display_offset,
                ),
            *old(fresh) + count * 512 <= usize::MAX,
            *fresh == *old(fresh) + fresh_cells(
                shape,
                grid_cells(*grid),
                run,
                snapshot_of(previous),
                viewport_position as int,
                rows@.len() as int,
            ),
            *fresh <= *old(fresh) + rows@.len() * 512,
            forall|k: int| 0 <= k < rows@.len() ==> row_view((#[trigger] rows@[k])@) == expected[k],
        decreases count - rows@.len(),
    {
        let position: i32 = rows.len() as i32;
        let row: i32 = if down {
            first + position
        } else {
            first - position
        };
        assert(row == run.row(position as int));
        assert(shape.has_line(run.row(position as int) - shape.display_offset));
        let cells: TerminalRowSnapshot = row_from_grid(
            grid,
            row - offset,
            columns,
            previous,
            viewport_position,
            row as i64,
            fresh,
        );
        rows.push(cells);
    }
    assert(rows_view(rows@) =~= expected);
    rows
}

impl TerminalSnapshot {
    /// A snapshot of a grid, taking over from the previous one every row that
    /// has not changed, and how many cells were not taken over.
    pub fn from_term_with_previous_counted(
        terminal_id: TerminalId,
        grid: &Grid<Cell>,
        mode: u32,
        process: TerminalProcessState,
        revision: u64,
        viewport_position: i64,
        previous: Option<&TerminalSnapshot>,
    ) -> (taken: (Self, usize))
        requires
            grid_shape(*grid).fits(),
        ensures
            taken.0@ == grid_snapshot(
                terminal_id,
                grid_shape(*grid),
                grid_cells(*grid),
                mode,
                process,
                revision,
                viewport_position,
            ),
            taken.1 == materialized_cells(
                grid_shape(*grid),
                grid_cells(*grid),
                snapshot_of(previous),
                viewport_position as int,
            ),
    {
        let shape: GridShape = read_shape(grid);
        let size = TerminalSize::new(shape.columns, shape.screen_lines);
        let history: usize = shape.total_lines.saturating_sub(shape.screen_lines);
        // Total retained history rows above the viewport: the authoritative
        // scrollback bound (rows_before is only a bounded overscan window).
        let history_len: i64 = history as i64;
        // The display goes up as far as the history does.
        let history_bottom: i64 = history_len;
        let mut fresh: usize = 0;
        let rows: Vec<TerminalRowSnapshot> = rows_from_grid(
            grid,
            shape,
            0,
            true,
            size.lines,
            previous,
            viewport_position,
            &mut fresh,
        );
        let above: usize = (history - shape.display_offset).min(VIEWPORT_OVERSCAN_ROWS);
        let rows_before: Vec<TerminalRowSnapshot> = rows_from_grid(
            grid,
            shape,
            -1,
            false,
            above,
            previous,
            viewport_position,
            &mut fresh,
        );
        let below: usize = (shape.screen_lines - size.lines + shape.display_offset).min(
            VIEWPORT_OVERSCAN_ROWS,
        );
        let rows_after: Vec<TerminalRowSnapshot> = rows_from_grid(
            grid,
            shape,
            size.lines as i32,
            true,
            below,
            previous,
            viewport_position,
            &mut fresh,
        );
        let viewport_row: i64 = shape.cursor_line as i64 + shape.display_offset as i64;
        let cursor = TerminalCursor {
            row: if viewport_row < 0 {
                usize::MAX
            } else {
                viewport_row as usize
            },
            column: shape.cursor_column.min(size.columns - 1),
            visible: read_cursor_shown(mode) && viewport_row >= 0 && (viewport_row as usize)
                < size.lines,
        };
        let snapshot = Self {
            terminal_id,
            size,
            process_name: String::new(),
            cwd: String::new(),
            display_offset: shape.display_offset,
            viewport_position,
            cursor,
            modes: read_modes(mode),
            process,
            revision,
            history_len,
            history_bottom,
            rows,
            rows_before,
            rows_after,
        };
        assert(snapshot@ =~= grid_snapshot(
            terminal_id,
            grid_shape(*grid),
            grid_cells(*grid),
            mode,
            process,
            revision,
            viewport_position,
        ));
        (snapshot, fresh)
    }

    pub fn from_term_with_previous(
        terminal_id: TerminalId,
        grid: &Grid<Cell>,
        mode: u32,
        process: TerminalProcessState,
        revision: u64,
        viewport_position: i64,
        previous: Option<&TerminalSnapshot>,
    ) -> (snapshot: Self)
        requires
            grid_shape(*grid).fits(),
        ensures
            snapshot@ == grid_snapshot(
                terminal_id,
                grid_shape(*grid),
                grid_cells(*grid),
                mode,
                process,
                revision,
                viewport_position,
            ),
    {
        Self::from_term_with_previous_counted(
            terminal_id,
            grid,
            mode,
            process,
            revision,
            viewport_position,
            previous,
        ).0
    }

    pub fn from_term_with_viewport_position(
        terminal_id: TerminalId,
        grid: &Grid<Cell>,
        mode: u32,
        process: TerminalProcessState,
        revision: u64,
        viewport_position: i64,
    ) -> (snapshot: Self)
        requires
            grid_shape(*grid).fits(),
        ensures
            snapshot@ == grid_snapshot(
                terminal_id,
                grid_shape(*grid),
                grid_cells(*grid),
                mode,
                process,
                revision,
                viewport_position,
            ),
    {
        Self::from_term_with_previous(
            terminal_id,
            grid,
            mode,
            process,
            revision,
            viewport_position,
            None,
        )
    }

    pub fn from_term(
        terminal_id: TerminalId,
        grid: &Grid<Cell>,
        mode: u32,
        process: TerminalProcessState,
        revision: u64,
    ) -> (snapshot: Self)
        requires
            grid_shape(*grid).fits(),
        ensures
            snapshot@ == grid_snapshot(
                terminal_id,
                grid_shape(*grid),
                grid_cells(*grid),
                mode,
                process,
                revision,
                0,
            ),
    {
        Self::from_term_with_viewport_position(terminal_id, grid, mode, process, revision, 0)
    }

    /// Whether a snapshot of the grid can be taken.
    pub fn grid_fits(grid: &Grid<Cell>) -> (fits: bool)
        ensures
            fits == grid_shape(*grid).fits(),
    {
        let shape: GridShape = read_shape(grid);
        let history: usize = shape.total_lines.saturating_sub(shape.screen_lines);
        2 <= shape.columns && 1 <= shape.screen_lines && shape.total_lines <= i32::MAX as usize
            && shape.screen_lines <= i32::MAX as usize && shape.display_offset <= history
    }
}

/// What a row of a snapshot shows is what the grid holds at that line: the first
/// visible row is as many lines above the screen as the display is off the
/// bottom, the rows above and below it follow on without a gap, and every cell
/// has the character, the colours and the marks of its own.
pub proof fn a_snapshot_shows_the_lines_of_the_grid(
    terminal_id: TerminalId,
    shape: GridShape,
    cells: Map<(int, int), GridCellView>,
    mode: u32,
    process: TerminalProcessState,
    revision: u64,
    viewport_position: i64,
    row: int,
    column: int,
)
    requires
        shape.fits(),
        shape.columns <= 512,
        shape.screen_lines <= 256,
        0 <= column < shape.columns,
    ensures
        ({
            let snapshot = grid_snapshot(
                terminal_id,
                shape,
                cells,
                mode,
                process,
                revision,
                viewport_position,
            );
            let above = min_of(
                shape.history() - shape.display_offset,
                VIEWPORT_OVERSCAN_ROWS as int,
            );
            let below = min_of(shape.display_offset as int, VIEWPORT_OVERSCAN_ROWS as int);
            &&& snapshot.size.columns == shape.columns
            &&& snapshot.size.lines == shape.screen_lines
            &&& (snapshot.relative(row) is Some) == (-above <= row < shape.screen_lines + below)
            &&& snapshot.relative(row) matches Some(shown) ==> {
                let cell = cells[(row - shape.display_offset, column)];
                &&& shown.len() == shape.columns
                &&& shown[column].character == cell.character
                &&& shown[column].fg == cell.fg
                &&& shown[column].bg == cell.bg
                &&& shown[column].zerowidth == cell.zerowidth
                &&& shown[column].style == style_of_bits(cell.flags)
            }
            &&& 0 <= row < shape.screen_lines ==> snapshot.relative(row) == Some(
                snapshot.rows[row],
            )
            &&& snapshot.terminal_id == terminal_id
            &&& snapshot.process == process
            &&& snapshot.revision == revision
            &&& snapshot.viewport_position == viewport_position
            &&& snapshot.display_offset == shape.display_offset
            &&& snapshot.history_len == shape.history()
        }),
{
    assert(VIEWPORT_OVERSCAN_ROWS <= i32::MAX);
}

/// The cursor is shown where it stands on the display, in its column, and only
/// where the mode shows it and its line is displayed.
pub proof fn the_cursor_is_shown_where_it_stands(shape: GridShape, mode: u32)
    requires
        shape.fits(),
        shape.columns <= 512,
        shape.screen_lines <= 256,
        0 <= shape.cursor_line < shape.screen_lines,
        shape.cursor_column < shape.columns,
    ensures
        shape.cursor(mode).row == shape.cursor_line + shape.display_offset,
        shape.cursor(mode).column == shape.cursor_column,
        shape.cursor(mode).visible ==> shape.cursor_line + shape.display_offset
            < shape.screen_lines,
        shape.cursor(mode).visible ==> mode & 1 == 1,
        mode & 1 == 1 && shape.display_offset == 0 ==> shape.cursor(mode).visible,
{
}

/// Rows that the snapshot before already has are taken from it, wherever they
/// have moved; without one before, every cell is new.
pub proof fn rows_are_reused_where_they_moved(
    shape: GridShape,
    cells: Map<(int, int), GridCellView>,
    run: RowRun,
    previous: SnapshotView,
    position: int,
    row: int,
    row_cells: Seq<CellView>,
    count: int,
)
    requires
        0 <= count,
        i64::MIN <= row - position <= i64::MAX,
    ensures
        !reusable(None, position, row, row_cells),
        ({
            let there = row - position + previous.viewport_position;
            i32::MIN <= there <= i32::MAX ==> reusable(Some(previous), position, row, row_cells)
                == (previous.relative(there) == Some(row_cells))
        }),
        fresh_cells(shape, cells, run, None, position, count) == count * shape.size().columns,
    decreases count,
{
    if count > 0 {
        rows_are_reused_where_they_moved(
            shape,
            cells,
            run,
            previous,
            position,
            row,
            row_cells,
            count - 1,
        );
        assert((count - 1) * shape.size().columns + shape.size().columns == count
            * shape.size().columns) by (nonlinear_arith);
    }
}

/// A snapshot carries what it is about: the terminal, its state, its number, its
/// modes and how much history there is.
pub proof fn a_snapshot_says_what_it_shows(
    id: TerminalId,
    shape: GridShape,
    cells: Map<(int, int), GridCellView>,
    mode: u32,
    process: TerminalProcessState,
    revision: u64,
    position: i64,
)
    requires
        shape.fits(),
    ensures
        ({
            let snapshot = grid_snapshot(id, shape, cells, mode, process, revision, position);
            &&& snapshot.terminal_id == id
            &&& snapshot.process == process
            &&& snapshot.revision == revision
            &&& snapshot.viewport_position == position
            &&& snapshot.display_offset == shape.display_offset
            &&& snapshot.history_len == shape.history()
            &&& snapshot.history_bottom == shape.history()
            &&& snapshot.modes == modes_of_bits(mode)
            &&& snapshot.rows.len() == snapshot.size.lines
        }),
{
}

} // verus!
