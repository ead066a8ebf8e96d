//! The selection of text on a terminal's screen.
use vstd::prelude::*;
use vstd::string::*;

use crate::ids::TerminalId;
use crate::num::{clamp_i64, clamped, max_of, min_of, saturating_add_i32, saturating_sub_i64};
use crate::terminal::snapshot::{
    CellView, SnapshotView, TerminalCell, TerminalSize, TerminalSnapshot,
};
use crate::text::{drop_trailing, without_trailing};

verus! {

#[derive(Debug, Clone, Copy, PartialEq, Eq, Structural)]
pub struct TerminalCellPosition {
    /// Viewport-relative row. Signed so a selected cell can remain tracked
    /// while scrolling moves it outside the visible area.
    pub row: i32,
    pub column: usize,
}

#[derive(Debug, Clone, Copy, PartialEq, Eq, Structural)]
pub enum TerminalSelectionSide {
    Left,
    Right,
}

#[derive(Debug, Clone, Copy, PartialEq, Eq, Structural)]
pub struct TerminalSelectionEndpoint {
    pub position: TerminalCellPosition,
    pub side: TerminalSelectionSide,
}

#[derive(Debug, Clone, Copy, PartialEq, Eq, Structural)]
pub struct TerminalSelection {
    pub terminal_id: TerminalId,
    pub anchor: TerminalSelectionEndpoint,
    pub head: TerminalSelectionEndpoint,
}

/// Where the mouse is on a terminal's grid, both counted from 1.
#[derive(Debug, Clone, Copy, PartialEq, Eq, Structural)]
pub struct TerminalMousePosition {
    pub column: usize,
    pub row: usize,
    pub side: TerminalSelectionSide,
}

/// The endpoint under the mouse: the nearest cell of the grid, and the right
/// side of it where the mouse is beyond the grid.
pub open spec fn endpoint_under(
    mouse: TerminalMousePosition,
    size: TerminalSize,
) -> TerminalSelectionEndpoint {
    TerminalSelectionEndpoint {
        position: TerminalCellPosition {
            row: min_of(max_of(mouse.row - 1, 0), max_of(size.lines - 1, 0)) as i32,
            column: min_of(max_of(mouse.column - 1, 0), max_of(size.columns - 1, 0)) as usize,
        },
        side: if mouse.row > size.lines || mouse.column > size.columns {
            TerminalSelectionSide::Right
        } else {
            mouse.side
        },
    }
}

/// The endpoint under the mouse.
pub fn terminal_selection_endpoint_at(mouse: TerminalMousePosition, size: TerminalSize) -> (endpoint:
    TerminalSelectionEndpoint)
    requires
        size.within_limits(),
    ensures
        endpoint == endpoint_under(mouse, size),
{
    let row: usize = mouse.row.saturating_sub(1).min(size.lines.saturating_sub(1));
    let column: usize = mouse.column.saturating_sub(1).min(size.columns.saturating_sub(1));
    let side: TerminalSelectionSide = if mouse.row > size.lines || mouse.column > size.columns {
        TerminalSelectionSide::Right
    } else {
        mouse.side
    };
    TerminalSelectionEndpoint {
        position: TerminalCellPosition { row: row as i32, column },
        side,
    }
}

/// Where an endpoint lies between the cells of the grid, counted row by row.
pub open spec fn boundary(endpoint: TerminalSelectionEndpoint, columns: int) -> int {
    endpoint.position.row * columns + endpoint.position.column + (if endpoint.side is Right {
        1int
    } else {
        0
    })
}

/// The endpoint can be counted.
pub open spec fn countable(endpoint: TerminalSelectionEndpoint) -> bool {
    endpoint.position.column <= u32::MAX
}

/// Where an endpoint lies between the cells of the grid.
pub fn selection_boundary_index(endpoint: TerminalSelectionEndpoint, columns: usize) -> (index: i64)
    requires
        countable(endpoint),
        columns <= i32::MAX,
    ensures
        index == boundary(endpoint, columns as int),
{
    let row: i64 = endpoint.position.row as i64;
    assert(-0x4000_0000_0000_0000int <= row * columns <= 0x4000_0000_0000_0000int)
        by (nonlinear_arith)
        requires
            -0x8000_0000int <= row <= 0x7fff_ffffint,
            0 <= columns <= 0x7fff_ffffint,
    ;
    let side: i64 = match endpoint.side {
        TerminalSelectionSide::Right => 1,
        TerminalSelectionSide::Left => 0,
    };
    row * columns as i64 + endpoint.position.column as i64 + side
}

/// How many cells the grid has.
pub open spec fn cell_total(size: TerminalSize) -> int {
    size.lines * size.columns
}

/// The cell at a place of the grid, counted row by row.
pub open spec fn flat_cell(snapshot: SnapshotView, at: int) -> Option<CellView> {
    if at < 0 {
        None
    } else {
        snapshot.cell_at(at / snapshot.size.columns as int, at % snapshot.size.columns as int)
    }
}

/// The first half of a wide character.
pub open spec fn is_wide(cell: Option<CellView>) -> bool {
    cell is Some && cell->0.style.wide
}

/// The gap at the end of a line before a wide character on the next one.
pub open spec fn is_gap(cell: Option<CellView>) -> bool {
    cell is Some && cell->0.style.leading_wide_spacer
}

/// The second half of a wide character.
pub open spec fn is_second_half(cell: Option<CellView>) -> bool {
    cell is Some && cell->0.style.wide_spacer && !cell->0.style.leading_wide_spacer
}

/// The place of the wide character that the cell at a place ends.
pub open spec fn base_of(snapshot: SnapshotView, at: int) -> int
    decreases at,
{
    if at > 0 && is_second_half(flat_cell(snapshot, at)) && is_wide(flat_cell(snapshot, at - 1)) {
        base_of(snapshot, at - 1)
    } else {
        at
    }
}

/// Where a selection that begins at a place takes its first cell: gaps are
/// passed over, and a second half counts for its wide character.
pub open spec fn settled_start(snapshot: SnapshotView, at: int, end: int) -> int
    decreases end - at,
{
    let cell = flat_cell(snapshot, at);
    if at >= end {
        at
    } else if is_gap(cell) {
        settled_start(snapshot, at + 1, end)
    } else if is_second_half(cell) {
        if at > 0 && is_wide(flat_cell(snapshot, at - 1)) {
            base_of(snapshot, at)
        } else {
            settled_start(snapshot, at + 1, end)
        }
    } else {
        at
    }
}

/// Where a selection that ends at a place ends: a gap is left out, and a wide
/// character is taken whole.
pub open spec fn settled_end(snapshot: SnapshotView, start: int, end: int) -> int {
    let kept = if end > start && is_gap(flat_cell(snapshot, end - 1)) {
        end - 1
    } else {
        end
    };
    if kept > start && is_wide(flat_cell(snapshot, kept - 1)) {
        min_of(kept + 1, cell_total(snapshot.size))
    } else {
        kept
    }
}

/// The cells that a selection covers, from the first up to the one behind the
/// last, counted row by row.
pub open spec fn covered(snapshot: SnapshotView, selection: TerminalSelection) -> Option<(int, int)> {
    let columns = snapshot.size.columns as int;
    let total = cell_total(snapshot.size);
    let anchor = boundary(selection.anchor, columns);
    let head = boundary(selection.head, columns);
    let low = clamped(min_of(anchor, head), 0, total);
    let high = clamped(max_of(anchor, head), 0, total);
    let start = settled_start(snapshot, low, high);
    let end = settled_end(snapshot, start, high);
    if low >= high || start >= end {
        None
    } else {
        Some((start, end))
    }
}

/// The position of a place on the grid.
pub open spec fn position_of(at: int, columns: int) -> TerminalCellPosition {
    TerminalCellPosition { row: (at / columns) as i32, column: (at % columns) as usize }
}

/// The first and the last position that a selection covers.
pub open spec fn bounds_of(snapshot: SnapshotView, selection: TerminalSelection) -> Option<
    (TerminalCellPosition, TerminalCellPosition),
> {
    match covered(snapshot, selection) {
        Some((start, end)) => Some(
            (
                position_of(start, snapshot.size.columns as int),
                position_of(end - 1, snapshot.size.columns as int),
            ),
        ),
        None => None,
    }
}

proof fn lemma_place(at: int, size: TerminalSize)
    requires
        size.within_limits(),
        0 <= at < cell_total(size),
    ensures
        0 <= at / size.columns as int,
        at / (size.columns as int) < size.lines,
        0 <= at % (size.columns as int) < size.columns,
        at == (at / size.columns as int) * size.columns + at % (size.columns as int),
{
    let columns = size.columns as int;
    let lines = size.lines as int;
    assert(0 <= at / columns && at / columns < lines && 0 <= at % columns && at % columns < columns
        && at == (at / columns) * columns + at % columns) by (nonlinear_arith)
        requires
            columns > 0,
            0 <= at,
            at < lines * columns,
    ;
}

proof fn lemma_total(size: TerminalSize)
    requires
        size.within_limits(),
    ensures
        0 < cell_total(size) <= 0x7fff_ffff,
{
    assert(0 < size.lines * size.columns <= 0x7fff_ffff) by (nonlinear_arith)
        requires
            0 < size.lines <= 4096,
            0 < size.columns <= 4096,
    ;
}

fn cell_flat(snapshot: &TerminalSnapshot, at: usize) -> (cell: Option<&TerminalCell>)
    requires
        snapshot.size.within_limits(),
    ensures
        match cell {
            Some(cell) => flat_cell(snapshot@, at as int) == Some(cell@),
            None => flat_cell(snapshot@, at as int) is None,
        },
{
    snapshot.cell(at / snapshot.size.columns, at % snapshot.size.columns)
}

fn wide_at(snapshot: &TerminalSnapshot, at: usize) -> (wide: bool)
    requires
        snapshot.size.within_limits(),
    ensures
        wide == is_wide(flat_cell(snapshot@, at as int)),
{
    match cell_flat(snapshot, at) {
        Some(cell) => cell.flags.wide(),
        None => false,
    }
}

fn gap_at(snapshot: &TerminalSnapshot, at: usize) -> (gap: bool)
    requires
        snapshot.size.within_limits(),
    ensures
        gap == is_gap(flat_cell(snapshot@, at as int)),
{
    match cell_flat(snapshot, at) {
        Some(cell) => cell.flags.leading_wide_spacer(),
        None => false,
    }
}

fn second_half_at(snapshot: &TerminalSnapshot, at: usize) -> (half: bool)
    requires
        snapshot.size.within_limits(),
    ensures
        half == is_second_half(flat_cell(snapshot@, at as int)),
{
    match cell_flat(snapshot, at) {
        Some(cell) => cell.flags.wide_spacer() && !cell.flags.leading_wide_spacer(),
        None => false,
    }
}

fn find_start(snapshot: &TerminalSnapshot, low: usize, high: usize) -> (start: usize)
    requires
        snapshot.size.within_limits(),
    ensures
        start == settled_start(snapshot@, low as int, high as int),
{
    let mut start: usize = low;
    while start < high
        invariant
            snapshot.size.within_limits(),
            settled_start(snapshot@, low as int, high as int) == settled_start(
                snapshot@,
                start as int,
                high as int,
            ),
        decreases high - start,
    {
        if gap_at(snapshot, start) {
            start = start + 1;
        } else if second_half_at(snapshot, start) {
            if start > 0 && wide_at(snapshot, start - 1) {
                let mut base: usize = start;
                while base > 0 && second_half_at(snapshot, base) && wide_at(snapshot, base - 1)
                    invariant
                        snapshot.size.within_limits(),
                        base_of(snapshot@, start as int) == base_of(snapshot@, base as int),
                    decreases base,
                {
                    base = base - 1;
                }
                return base;
            }
            start = start + 1;
        } else {
            return start;
        }
    }
    start
}

fn find_cover(snapshot: &TerminalSnapshot, selection: TerminalSelection) -> (cover: Option<
    (usize, usize),
>)
    requires
        snapshot.size.within_limits(),
        countable(selection.anchor),
        countable(selection.head),
    ensures
        match cover {
            Some((start, end)) => covered(snapshot@, selection) == Some(
                (start as int, end as int),
            ) && start < end <= cell_total(snapshot.size),
            None => covered(snapshot@, selection) is None,
        },
{
    proof {
        lemma_total(snapshot.size);
    }
    let columns: usize = snapshot.size.columns;
    let total: usize = snapshot.size.lines * columns;
    let anchor: i64 = selection_boundary_index(selection.anchor, columns);
    let head: i64 = selection_boundary_index(selection.head, columns);
    let low: usize = clamp_i64(anchor.min(head), 0, total as i64) as usize;
    let high: usize = clamp_i64(anchor.max(head), 0, total as i64) as usize;
    if low >= high {
        return None;
    }
    let start: usize = find_start(snapshot, low, high);
    let mut end: usize = high;
    if end > start && gap_at(snapshot, end - 1) {
        end = end - 1;
    }
    if end > start && wide_at(snapshot, end - 1) {
        end = (end + 1).min(total);
    }
    if start >= end {
        return None;
    }
    Some((start, end))
}

/// The first and the last position that a selection covers.
pub fn selection_bounds(snapshot: &TerminalSnapshot, selection: TerminalSelection) -> (bounds:
    Option<(TerminalCellPosition, TerminalCellPosition)>)
    requires
        snapshot.size.within_limits(),
        countable(selection.anchor),
        countable(selection.head),
    ensures
        bounds == bounds_of(snapshot@, selection),
{
    match find_cover(snapshot, selection) {
        Some((start, end)) => {
            let columns: usize = snapshot.size.columns;
            proof {
                lemma_place(start as int, snapshot.size);
                lemma_place(end - 1, snapshot.size);
            }
            Some(
                (
                    TerminalCellPosition {
                        row: (start / columns) as i32,
                        column: start % columns,
                    },
                    TerminalCellPosition {
                        row: ((end - 1) / columns) as i32,
                        column: (end - 1) % columns,
                    },
                ),
            )
        },
        None => None,
    }
}

/// A position is not before another one, row by row.
pub open spec fn not_before(a: TerminalCellPosition, b: TerminalCellPosition) -> bool {
    a.row > b.row || (a.row == b.row && a.column >= b.column)
}

/// A position is among those from one to another.
pub open spec fn is_between(
    position: TerminalCellPosition,
    start: TerminalCellPosition,
    end: TerminalCellPosition,
) -> bool {
    not_before(position, start) && not_before(end, position)
}

/// Whether a position is among those from one to another.
pub fn contains_position(
    start: TerminalCellPosition,
    end: TerminalCellPosition,
    position: TerminalCellPosition,
) -> (contains: bool)
    ensures
        contains == is_between(position, start, end),
{
    (position.row > start.row || (position.row == start.row && position.column >= start.column))
        && (end.row > position.row || (end.row == position.row && end.column >= position.column))
}

/// Whether a cell of a terminal is selected.
pub fn is_terminal_cell_selected(
    snapshot: &TerminalSnapshot,
    selection: Option<TerminalSelection>,
    terminal_id: TerminalId,
    row: usize,
    column: usize,
) -> (selected: bool)
    requires
        snapshot.size.within_limits(),
        row <= i32::MAX,
        match selection {
            Some(selection) => countable(selection.anchor) && countable(selection.head),
            None => true,
        },
    ensures
        selected == match selection {
            Some(selection) => selection.terminal_id == terminal_id && match bounds_of(
                snapshot@,
                selection,
            ) {
                Some((start, end)) => is_between(
                    TerminalCellPosition { row: row as i32, column },
                    start,
                    end,
                ),
                None => false,
            },
            None => false,
        },
{
    match selection {
        Some(selection) => {
            if selection.terminal_id != terminal_id {
                return false;
            }
            match selection_bounds(snapshot, selection) {
                Some((start, end)) => contains_position(
                    start,
                    end,
                    TerminalCellPosition { row: row as i32, column },
                ),
                None => false,
            }
        },
        None => false,
    }
}

/// The text of the cells of a row from one column up to another.
pub open spec fn cells_text(snapshot: SnapshotView, row: int, from: int, to: int) -> Seq<char>
    decreases to - from,
{
    if from >= to {
        Seq::empty()
    } else {
        let before = cells_text(snapshot, row, from, to - 1);
        match snapshot.cell_at(row, to - 1) {
            Some(cell) => before + cell.text(),
            None => before,
        }
    }
}

/// The text of a row goes on in the next row.
pub open spec fn is_wrapped(snapshot: SnapshotView, row: int) -> bool {
    match snapshot.cell_at(row, max_of(snapshot.size.columns - 1, 0)) {
        Some(cell) => cell.style.wrapline,
        None => false,
    }
}

/// The selected text of a row, without the spaces at its end.
pub open spec fn selected_line(
    snapshot: SnapshotView,
    start: TerminalCellPosition,
    end: TerminalCellPosition,
    row: int,
) -> Seq<char> {
    without_trailing(
        cells_text(
            snapshot,
            row,
            if row == start.row {
                start.column as int
            } else {
                0
            },
            if row == end.row {
                end.column + 1
            } else {
                snapshot.size.columns as int
            },
        ),
        ' ',
    )
}

/// The selected text up to the end of a row: rows that do not go on in the
/// next one are ended by a line feed.
pub open spec fn selected_rows(
    snapshot: SnapshotView,
    start: TerminalCellPosition,
    end: TerminalCellPosition,
    row: int,
) -> Seq<char>
    decreases row - start.row + 1,
{
    if row < start.row {
        Seq::empty()
    } else {
        let line = selected_line(snapshot, start, end, row);
        let before = selected_rows(snapshot, start, end, row - 1);
        if row != end.row && !is_wrapped(snapshot, row) {
            (before + line).push('\n')
        } else {
            before + line
        }
    }
}

/// The selected text.
pub open spec fn selected_text(snapshot: SnapshotView, selection: TerminalSelection) -> Seq<char> {
    match bounds_of(snapshot, selection) {
        Some((start, end)) => selected_rows(snapshot, start, end, end.row as int),
        None => Seq::empty(),
    }
}

fn push_cell(line: &mut String, cell: &TerminalCell)
    ensures
        final(line)@ == old(line)@ + cell@.text(),
{
    let ghost before = line@;
    if cell.flags.wide_spacer() || cell.flags.leading_wide_spacer() {
        assert(line@ =~= before + cell@.text());
        return;
    }
    line.push(cell.character);
    let marks: &[char] = cell.marks();
    let mut i: usize = 0;
    assert(marks@.take(0) =~= Seq::empty());
    assert(line@ =~= before + (seq![cell.character] + marks@.take(0)));
    while i < marks.len()
        invariant
            i <= marks@.len(),
            line@ == before + (seq![cell.character] + marks@.take(i as int)),
        decreases marks@.len() - i,
    {
        line.push(marks[i]);
        assert(marks@.take(i + 1) =~= marks@.take(i as int).push(marks@[i as int]));
        assert(line@ =~= before + (seq![cell.character] + marks@.take(i + 1)));
        i = i + 1;
    }
    assert(marks@.take(i as int) =~= marks@);
}

/// The selected text: second halves of wide characters and spaces at the end
/// of lines are left out.
pub fn selected_terminal_text(snapshot: &TerminalSnapshot, selection: TerminalSelection) -> (text:
    String)
    requires
        snapshot.size.within_limits(),
        countable(selection.anchor),
        countable(selection.head),
    ensures
        text@ == selected_text(snapshot@, selection),
{
    let mut text: String = String::new();
    let (first, end) = match find_cover(snapshot, selection) {
        Some(cover) => cover,
        None => {
            assert(text@ =~= Seq::empty());
            return text;
        },
    };
    let columns: usize = snapshot.size.columns;
    proof {
        lemma_place(first as int, snapshot.size);
        lemma_place(end - 1, snapshot.size);
        lemma_rows_in_order(first as int, end - 1, columns as int);
        lemma_columns_in_order(first as int, end - 1, snapshot.size);
    }
    let start_row: usize = first / columns;
    let start_column: usize = first % columns;
    let end_row: usize = (end - 1) / columns;
    let end_column: usize = (end - 1) % columns;
    let ghost start = position_of(first as int, columns as int);
    let ghost last = position_of(end - 1, columns as int);
    let mut row: usize = start_row;
    assert(text@ =~= Seq::empty());
    while row <= end_row
        invariant
            snapshot.size.within_limits(),
            columns == snapshot.size.columns,
            start_row <= row <= end_row + 1,
            end_row < snapshot.size.lines,
            start_column < columns,
            end_column < columns,
            start_row == end_row ==> start_column <= end_column,
            start == (TerminalCellPosition { row: start_row as i32, column: start_column }),
            last == (TerminalCellPosition { row: end_row as i32, column: end_column }),
            text@ == selected_rows(snapshot@, start, last, row - 1),
        decreases end_row + 1 - row,
    {
        let first_column: usize = if row == start_row {
            start_column
        } else {
            0
        };
        let behind: usize = if row == end_row {
            end_column + 1
        } else {
            columns
        };
        let mut line: String = String::new();
        let mut column: usize = first_column;
        assert(line@ =~= Seq::empty());
        while column < behind
            invariant
                first_column <= column <= behind,
                line@ == cells_text(
                    snapshot@,
                    row as int,
                    first_column as int,
                    column as int,
                ),
            decreases behind - column,
        {
            if let Some(cell) = snapshot.cell(row, column) {
                push_cell(&mut line, cell);
            }
            column = column + 1;
        }
        let kept: String = drop_trailing(line.as_str(), ' ');
        text.append(kept.as_str());
        if row != end_row {
            let wrapped: bool = match snapshot.cell(row, columns.saturating_sub(1)) {
                Some(cell) => cell.flags.wrapline(),
                None => false,
            };
            if !wrapped {
                text.push('\n');
            }
        }
        row = row + 1;
    }
    text
}

proof fn lemma_columns_in_order(a: int, b: int, size: TerminalSize)
    requires
        size.within_limits(),
        0 <= a <= b < cell_total(size),
    ensures
        a / size.columns as int == b / size.columns as int ==> a % size.columns as int <= b
            % size.columns as int,
{
    lemma_place(a, size);
    lemma_place(b, size);
}

proof fn lemma_rows_in_order(a: int, b: int, columns: int)
    requires
        0 <= a <= b,
        columns > 0,
    ensures
        a / columns <= b / columns,
{
    assert(a / columns <= b / columns) by (nonlinear_arith)
        requires
            0 <= a <= b,
            columns > 0,
    ;
}

/// A row that has moved.
pub open spec fn shifted_row(row: i32, delta: int) -> i32 {
    clamped(
        row + clamped(delta, i32::MIN as int, i32::MAX as int),
        i32::MIN as int,
        i32::MAX as int,
    ) as i32
}

/// A selection whose rows have moved.
pub open spec fn shifted(selection: TerminalSelection, delta: int) -> TerminalSelection {
    TerminalSelection {
        terminal_id: selection.terminal_id,
        anchor: TerminalSelectionEndpoint {
            position: TerminalCellPosition {
                row: shifted_row(selection.anchor.position.row, delta),
                column: selection.anchor.position.column,
            },
            side: selection.anchor.side,
        },
        head: TerminalSelectionEndpoint {
            position: TerminalCellPosition {
                row: shifted_row(selection.head.position.row, delta),
                column: selection.head.position.column,
            },
            side: selection.head.side,
        },
    }
}

/// Moves the rows of a selection.
pub fn shift_terminal_selection_rows(selection: &mut TerminalSelection, delta: i64)
    ensures
        *final(selection) == shifted(*old(selection), delta as int),
{
    let delta: i32 = clamp_i64(delta, i32::MIN as i64, i32::MAX as i64) as i32;
    selection.anchor.position.row = saturating_add_i32(selection.anchor.position.row, delta);
    selection.head.position.row = saturating_add_i32(selection.head.position.row, delta);
}

/// Moves a selection along with the viewport. Output that grows the history
/// behind a pinned viewport does not move it.
pub fn update_terminal_selection_for_viewport(
    selection: &mut TerminalSelection,
    previous_viewport: i64,
    next_viewport: i64,
)
    ensures
        *final(selection) == shifted(
            *old(selection),
            clamped(next_viewport - previous_viewport, i64::MIN as int, i64::MAX as int),
        ),
{
    let delta: i64 = saturating_sub_i64(next_viewport, previous_viewport);
    shift_terminal_selection_rows(selection, delta);
}

/// It makes no difference which end a selection was begun at.
pub proof fn selecting_backwards_is_the_same(
    snapshot: SnapshotView,
    terminal_id: TerminalId,
    one: TerminalSelectionEndpoint,
    other: TerminalSelectionEndpoint,
)
    ensures
        bounds_of(snapshot, TerminalSelection { terminal_id, anchor: one, head: other })
            == bounds_of(snapshot, TerminalSelection { terminal_id, anchor: other, head: one }),
{
}

/// A viewport that has not moved does not move the selection.
pub proof fn a_still_viewport_keeps_the_selection(selection: TerminalSelection)
    ensures
        shifted(selection, 0) == selection,
{
}

/// A selection that was moved along with the viewport is moved back with it,
/// unless its rows ran out of numbers.
pub proof fn scrolling_back_restores_the_selection(selection: TerminalSelection, delta: int)
    requires
        i32::MIN < delta <= i32::MAX,
        i32::MIN <= selection.anchor.position.row + delta <= i32::MAX,
        i32::MIN <= selection.head.position.row + delta <= i32::MAX,
    ensures
        shifted(shifted(selection, delta), -delta) == selection,
{
}

proof fn lemma_start_bounds(snapshot: SnapshotView, at: int, end: int)
    requires
        0 <= at,
    ensures
        0 <= settled_start(snapshot, at, end),
    decreases end - at,
{
    let cell = flat_cell(snapshot, at);
    if at < end {
        if is_gap(cell) {
            lemma_start_bounds(snapshot, at + 1, end);
        } else if is_second_half(cell) {
            if at > 0 && is_wide(flat_cell(snapshot, at - 1)) {
                lemma_base_bounds(snapshot, at);
            } else {
                lemma_start_bounds(snapshot, at + 1, end);
            }
        }
    }
}

proof fn lemma_base_bounds(snapshot: SnapshotView, at: int)
    requires
        0 <= at,
    ensures
        0 <= base_of(snapshot, at) <= at,
    decreases at,
{
    if at > 0 && is_second_half(flat_cell(snapshot, at)) && is_wide(flat_cell(snapshot, at - 1)) {
        lemma_base_bounds(snapshot, at - 1);
    }
}

/// What a selection covers lies on the grid, and its start is not behind its
/// end.
pub proof fn a_selection_stays_on_the_grid(snapshot: SnapshotView, selection: TerminalSelection)
    requires
        snapshot.size.within_limits(),
        bounds_of(snapshot, selection) is Some,
    ensures
        ({
            let (start, end) = bounds_of(snapshot, selection)->0;
            &&& 0 <= start.row <= end.row < snapshot.size.lines
            &&& start.column < snapshot.size.columns
            &&& end.column < snapshot.size.columns
            &&& not_before(end, start)
        }),
{
    let columns = snapshot.size.columns as int;
    let total = cell_total(snapshot.size);
    let anchor = boundary(selection.anchor, columns);
    let head = boundary(selection.head, columns);
    let low = clamped(min_of(anchor, head), 0, total);
    let high = clamped(max_of(anchor, head), 0, total);
    let (start, end) = covered(snapshot, selection)->0;
    lemma_total(snapshot.size);
    lemma_start_bounds(snapshot, low, high);
    lemma_place(start, snapshot.size);
    lemma_place(end - 1, snapshot.size);
    lemma_rows_in_order(start, end - 1, columns);
    lemma_columns_in_order(start, end - 1, snapshot.size);
}

/// What a cell shows: nothing where there is none and where a wide character
/// that stands elsewhere is shown.
pub open spec fn shown_by(cell: Option<CellView>) -> Seq<char> {
    match cell {
        Some(cell) => if cell.style.wide_spacer || cell.style.leading_wide_spacer {
            Seq::empty()
        } else {
            seq![cell.character] + cell.zerowidth
        },
        None => Seq::empty(),
    }
}

/// What the cells of a row before a column show, those only that lie from one
/// position to another.
pub open spec fn shown_between(
    snapshot: SnapshotView,
    start: TerminalCellPosition,
    end: TerminalCellPosition,
    row: int,
    upto: int,
) -> Seq<char>
    decreases upto,
{
    if upto <= 0 {
        Seq::empty()
    } else {
        let column = upto - 1;
        let before = shown_between(snapshot, start, end, row, column);
        let behind_start = row > start.row || (row == start.row && column >= start.column);
        let before_end = row < end.row || (row == end.row && column <= end.column);
        if behind_start && before_end {
            before + shown_by(snapshot.cell_at(row, column))
        } else {
            before
        }
    }
}

proof fn lemma_shown_between(
    snapshot: SnapshotView,
    start: TerminalCellPosition,
    end: TerminalCellPosition,
    row: int,
    from: int,
    to: int,
    upto: int,
)
    requires
        start.row <= row <= end.row,
        from == if row == start.row {
            start.column as int
        } else {
            0
        },
        to == if row == end.row {
            end.column + 1
        } else {
            snapshot.size.columns as int
        },
        0 <= from,
        0 <= upto <= snapshot.size.columns,
    ensures
        shown_between(snapshot, start, end, row, upto) == cells_text(
            snapshot,
            row,
            from,
            min_of(upto, to),
        ),
    decreases upto,
{
    if upto > 0 {
        let column = upto - 1;
        lemma_shown_between(snapshot, start, end, row, from, to, column);
        assert(cells_text(snapshot, row, from, min_of(column, to)) + Seq::<char>::empty()
            =~= cells_text(snapshot, row, from, min_of(column, to)));
    }
}

/// A selection within one row copies what its cells show, from the first to
/// the last and no others, without the spaces at the end.
pub proof fn the_selected_cells_are_copied(snapshot: SnapshotView, selection: TerminalSelection)
    requires
        snapshot.size.within_limits(),
    ensures
        match bounds_of(snapshot, selection) {
            Some((start, end)) => start.row == end.row ==> {
                let text = selected_text(snapshot, selection);
                let shown = shown_between(
                    snapshot,
                    start,
                    end,
                    start.row as int,
                    snapshot.size.columns as int,
                );
                &&& text.len() <= shown.len()
                &&& text == shown.take(text.len() as int)
                &&& forall|i: int| text.len() <= i < shown.len() ==> #[trigger] shown[i] == ' '
                &&& text.len() > 0 ==> text.last() != ' '
            },
            None => selected_text(snapshot, selection).len() == 0,
        },
{
    if let Some((start, end)) = bounds_of(snapshot, selection) {
        if start.row == end.row {
            a_selection_stays_on_the_grid(snapshot, selection);
            let row = start.row as int;
            lemma_shown_between(
                snapshot,
                start,
                end,
                row,
                start.column as int,
                end.column + 1,
                snapshot.size.columns as int,
            );
            let line = cells_text(snapshot, row, start.column as int, end.column + 1);
            crate::text::only_trailing_characters_go(line, ' ');
            assert(selected_rows(snapshot, start, end, row - 1) =~= Seq::<char>::empty());
            assert(selected_rows(snapshot, start, end, row) =~= without_trailing(line, ' '));
        }
    }
}

proof fn lemma_upper_rows(
    snapshot: SnapshotView,
    start: TerminalCellPosition,
    end: TerminalCellPosition,
    cut: TerminalCellPosition,
    row: int,
)
    requires
        snapshot.size.columns > 0,
        start.row <= cut.row < end.row,
        cut.column == snapshot.size.columns - 1,
        row < cut.row,
    ensures
        selected_rows(snapshot, start, end, row) == selected_rows(snapshot, start, cut, row),
    decreases row - start.row + 1,
{
    if row >= start.row {
        lemma_upper_rows(snapshot, start, end, cut, row - 1);
    }
}

proof fn lemma_lower_rows(
    snapshot: SnapshotView,
    start: TerminalCellPosition,
    end: TerminalCellPosition,
    next: TerminalCellPosition,
    row: int,
)
    requires
        start.row < next.row <= row <= end.row,
        next.column == 0,
    ensures
        selected_rows(snapshot, start, end, row) == selected_rows(
            snapshot,
            start,
            end,
            next.row - 1,
        ) + selected_rows(snapshot, next, end, row),
    decreases row - next.row,
{
    let above = selected_rows(snapshot, start, end, next.row - 1);
    let line = selected_line(snapshot, start, end, row);
    assert(line == selected_line(snapshot, next, end, row));
    if row > next.row {
        lemma_lower_rows(snapshot, start, end, next, row - 1);
        let below = selected_rows(snapshot, next, end, row - 1);
        assert((above + below) + line =~= above + (below + line));
        assert((above + (below + line)).push('\n') =~= above + (below + line).push('\n'));
    } else {
        assert(selected_rows(snapshot, next, end, row - 1) =~= Seq::<char>::empty());
        assert(Seq::<char>::empty() + line =~= line);
        assert((above + line).push('\n') =~= above + line.push('\n'));
    }
}

/// A selection over several rows may be cut at the end of any of them: the
/// text of the upper part comes first and that of the lower part behind it,
/// with a line feed between them unless the row goes on in the next one.
pub proof fn a_selection_is_copied_row_by_row(
    snapshot: SnapshotView,
    start: TerminalCellPosition,
    end: TerminalCellPosition,
    cut: TerminalCellPosition,
    next: TerminalCellPosition,
)
    requires
        snapshot.size.columns > 0,
        start.row <= cut.row < end.row,
        cut.column == snapshot.size.columns - 1,
        next.row == cut.row + 1,
        next.column == 0,
    ensures
        ({
            let upper = selected_rows(snapshot, start, cut, cut.row as int);
            let lower = selected_rows(snapshot, next, end, end.row as int);
            let goes_on = match snapshot.cell_at(cut.row as int, cut.column as int) {
                Some(cell) => cell.style.wrapline,
                None => false,
            };
            selected_rows(snapshot, start, end, end.row as int) == upper + (if goes_on {
                Seq::empty()
            } else {
                seq!['\n']
            }) + lower
        }),
        forall|selection: TerminalSelection| #[trigger]
            bounds_of(snapshot, selection) == Some((start, end)) ==> selected_text(
                snapshot,
                selection,
            ) == selected_rows(snapshot, start, end, end.row as int),
{
    let upper = selected_rows(snapshot, start, cut, cut.row as int);
    let line = selected_line(snapshot, start, end, cut.row as int);
    assert(line == selected_line(snapshot, start, cut, cut.row as int));
    lemma_upper_rows(snapshot, start, end, cut, cut.row - 1);
    lemma_lower_rows(snapshot, start, end, next, end.row as int);
    assert(upper + Seq::<char>::empty() =~= upper);
    assert(upper.push('\n') =~= upper + seq!['\n']);
}

/// No cell of the screen is part of a wide character.
pub open spec fn is_narrow(snapshot: SnapshotView) -> bool {
    forall|row: int, column: int|
        match #[trigger] snapshot.cell_at(row, column) {
            Some(cell) => !cell.style.wide && !cell.style.wide_spacer
                && !cell.style.leading_wide_spacer,
            None => true,
        }
}

proof fn lemma_flat(row: int, column: int, size: TerminalSize)
    requires
        size.within_limits(),
        0 <= row < size.lines,
        0 <= column < size.columns,
    ensures
        0 <= row * size.columns + column < cell_total(size),
        (row * size.columns + column) / (size.columns as int) == row,
        (row * size.columns + column) % (size.columns as int) == column,
{
    let columns = size.columns as int;
    let lines = size.lines as int;
    assert(0 <= row * columns + column < lines * columns) by (nonlinear_arith)
        requires
            0 <= row < lines,
            0 <= column < columns,
    ;
    vstd::arithmetic::div_mod::lemma_fundamental_div_mod_converse(
        row * columns + column,
        columns,
        row,
        column,
    );
}

proof fn lemma_order_of_places(a: int, b: int, size: TerminalSize)
    requires
        size.within_limits(),
        0 <= a < cell_total(size),
        0 <= b < cell_total(size),
    ensures
        not_before(position_of(a, size.columns as int), position_of(b, size.columns as int)) == (a
            >= b),
{
    let columns = size.columns as int;
    lemma_place(a, size);
    lemma_place(b, size);
    let ra = a / columns;
    let rb = b / columns;
    if ra > rb {
        assert(ra * columns >= rb * columns + columns) by (nonlinear_arith)
            requires
                ra > rb,
                columns > 0,
        ;
    } else if rb > ra {
        assert(rb * columns >= ra * columns + columns) by (nonlinear_arith)
            requires
                rb > ra,
                columns > 0,
        ;
    }
}

/// Among narrow characters a cell is selected exactly where it lies whole
/// between the two ends of the selection: the left end of a cell is at its
/// place, counted row by row, and the right end is one further.
pub proof fn narrow_cells_are_selected_between_the_ends(
    snapshot: SnapshotView,
    selection: TerminalSelection,
    row: int,
    column: int,
)
    requires
        snapshot.size.within_limits(),
        is_narrow(snapshot),
        0 <= row < snapshot.size.lines,
        0 <= column < snapshot.size.columns,
    ensures
        ({
            let columns = snapshot.size.columns as int;
            let anchor = selection.anchor.position.row * columns + selection.anchor.position.column
                + (if selection.anchor.side is Right {
                1int
            } else {
                0
            });
            let head = selection.head.position.row * columns + selection.head.position.column + (
            if selection.head.side is Right {
                1int
            } else {
                0
            });
            let place = row * columns + column;
            let between = (anchor <= place && place + 1 <= head) || (head <= place && place + 1
                <= anchor);
            match bounds_of(snapshot, selection) {
                Some((start, end)) => between == ((row > start.row || (row == start.row && column
                    >= start.column)) && (row < end.row || (row == end.row && column
                    <= end.column))),
                None => !between,
            }
        }),
{
    let columns = snapshot.size.columns as int;
    let total = cell_total(snapshot.size);
    let place = row * columns + column;
    lemma_flat(row, column, snapshot.size);
    lemma_total(snapshot.size);
    let low = clamped(
        min_of(boundary(selection.anchor, columns), boundary(selection.head, columns)),
        0,
        total,
    );
    let high = clamped(
        max_of(boundary(selection.anchor, columns), boundary(selection.head, columns)),
        0,
        total,
    );
    if low < high {
        assert(!is_gap(flat_cell(snapshot, low)) && !is_second_half(flat_cell(snapshot, low)));
        assert(settled_start(snapshot, low, high) == low);
        assert(!is_gap(flat_cell(snapshot, high - 1)) && !is_wide(flat_cell(snapshot, high - 1)));
        assert(covered(snapshot, selection) == Some((low, high)));
        lemma_order_of_places(place, low, snapshot.size);
        lemma_order_of_places(high - 1, place, snapshot.size);
        lemma_place(low, snapshot.size);
        lemma_place(high - 1, snapshot.size);
    }
}

proof fn lemma_start_settles(snapshot: SnapshotView, at: int, end: int)
    requires
        0 <= at,
    ensures
        ({
            let start = settled_start(snapshot, at, end);
            start >= end || !(start > 0 && is_second_half(flat_cell(snapshot, start)) && is_wide(
                flat_cell(snapshot, start - 1),
            ))
        }),
    decreases end - at,
{
    let cell = flat_cell(snapshot, at);
    if at < end {
        if is_gap(cell) {
            lemma_start_settles(snapshot, at + 1, end);
        } else if is_second_half(cell) {
            if at > 0 && is_wide(flat_cell(snapshot, at - 1)) {
                lemma_base_settles(snapshot, at);
            } else {
                lemma_start_settles(snapshot, at + 1, end);
            }
        }
    }
}

proof fn lemma_base_settles(snapshot: SnapshotView, at: int)
    ensures
        ({
            let base = base_of(snapshot, at);
            !(base > 0 && is_second_half(flat_cell(snapshot, base)) && is_wide(
                flat_cell(snapshot, base - 1),
            ))
        }),
    decreases at,
{
    if at > 0 && is_second_half(flat_cell(snapshot, at)) && is_wide(flat_cell(snapshot, at - 1)) {
        lemma_base_settles(snapshot, at - 1);
    }
}

/// A wide character is selected whole or not at all: its two cells are never
/// told apart.
pub proof fn wide_characters_are_selected_whole(
    snapshot: SnapshotView,
    selection: TerminalSelection,
    row: int,
    column: int,
)
    requires
        snapshot.size.within_limits(),
        0 <= row < snapshot.size.lines,
        0 <= column,
        column + 1 < snapshot.size.columns,
        snapshot.cell_at(row, column) matches Some(cell) && cell.style.wide
            && !cell.style.wide_spacer && !cell.style.leading_wide_spacer,
        snapshot.cell_at(row, column + 1) matches Some(cell) && cell.style.wide_spacer
            && !cell.style.wide && !cell.style.leading_wide_spacer,
        row * snapshot.size.columns + column > 0 ==> !is_wide(
            flat_cell(snapshot, row * snapshot.size.columns + column - 1),
        ),
    ensures
        match bounds_of(snapshot, selection) {
            Some((start, end)) => is_between(
                TerminalCellPosition { row: row as i32, column: column as usize },
                start,
                end,
            ) == is_between(
                TerminalCellPosition { row: row as i32, column: (column + 1) as usize },
                start,
                end,
            ),
            None => true,
        },
{
    let columns = snapshot.size.columns as int;
    let total = cell_total(snapshot.size);
    let first = row * columns + column;
    lemma_flat(row, column, snapshot.size);
    lemma_flat(row, column + 1, snapshot.size);
    lemma_total(snapshot.size);
    assert(is_wide(flat_cell(snapshot, first)) && !is_gap(flat_cell(snapshot, first)));
    assert(is_second_half(flat_cell(snapshot, first + 1)));
    if let Some((start, end)) = covered(snapshot, selection) {
        let low = clamped(
            min_of(boundary(selection.anchor, columns), boundary(selection.head, columns)),
            0,
            total,
        );
        let high = clamped(
            max_of(boundary(selection.anchor, columns), boundary(selection.head, columns)),
            0,
            total,
        );
        lemma_start_settles(snapshot, low, high);
        lemma_start_bounds(snapshot, low, high);
        assert(start != first + 1);
        assert(end != first + 1);
        lemma_order_of_places(first, start, snapshot.size);
        lemma_order_of_places(end - 1, first, snapshot.size);
        lemma_order_of_places(first + 1, start, snapshot.size);
        lemma_order_of_places(end - 1, first + 1, snapshot.size);
    }
}

/// The cell under the mouse is the one it is over; beyond an edge of the grid
/// it is the nearest one, and beyond the right or the lower edge its right end.
pub proof fn the_mouse_is_over_a_cell(mouse: TerminalMousePosition, size: TerminalSize)
    requires
        size.within_limits(),
    ensures
        ({
            let endpoint = endpoint_under(mouse, size);
            &&& 1 <= mouse.row <= size.lines ==> endpoint.position.row == mouse.row - 1
            &&& 1 <= mouse.column <= size.columns ==> endpoint.position.column == mouse.column - 1
            &&& mouse.row > size.lines ==> endpoint.position.row == size.lines - 1
            &&& mouse.column > size.columns ==> endpoint.position.column == size.columns - 1
            &&& mouse.row == 0 ==> endpoint.position.row == 0
            &&& mouse.column == 0 ==> endpoint.position.column == 0
            &&& mouse.row > size.lines || mouse.column > size.columns ==> endpoint.side is Right
            &&& mouse.row <= size.lines && mouse.column <= size.columns ==> endpoint.side
                == mouse.side
        }),
{
}

/// A selection moves with the viewport: scrolling into the history by some
/// lines moves both ends down by as many, and nothing else of it changes.
pub proof fn a_selection_moves_with_the_viewport(selection: TerminalSelection, delta: int)
    requires
        i32::MIN <= delta <= i32::MAX,
        i32::MIN <= selection.anchor.position.row + delta <= i32::MAX,
        i32::MIN <= selection.head.position.row + delta <= i32::MAX,
    ensures
        ({
            let moved = shifted(selection, delta);
            &&& moved.terminal_id == selection.terminal_id
            &&& moved.anchor.position.row == selection.anchor.position.row + delta
            &&& moved.head.position.row == selection.head.position.row + delta
            &&& moved.anchor.position.column == selection.anchor.position.column
            &&& moved.head.position.column == selection.head.position.column
            &&& moved.anchor.side == selection.anchor.side
            &&& moved.head.side == selection.head.side
        }),
{
}

} // verus!
